use vstd::prelude::*;
use crate::engine::black_box::{BlackBox, black_box_result};
use crate::engine::register_error::{RegisterError, SpecRegisterError};
use crate::interpreter::evaluator::environment::{ClosureValue, closure_view, closure_wf};

verus! {

// Qubit `q` of an `n`-qubit register is bit `n - 1 - q` of a basis index:
// qubit 0 is the leftmost, most significant bit.

/// The bit of a basis index that holds qubit `q` of `n`.
pub open spec fn qubit_bit(n: usize, q: usize) -> usize {
    1usize << ((n - 1 - q) as usize)
}

/// The index whose amplitude moves to `i` when the target bit is flipped
/// wherever all the control bits are set.
pub open spec fn flip_partner(i: usize, cmask: usize, tmask: usize) -> usize {
    if i & cmask == cmask {
        i ^ tmask
    } else {
        i
    }
}

proof fn lemma_flip_bits(i: usize, cmask: usize, tmask: usize, n: usize)
    requires
        n < usize::BITS,
        i < (1usize << n),
        tmask < (1usize << n),
        tmask != 0,
        tmask & cmask == 0,
    ensures
        flip_partner(i, cmask, tmask) < (1usize << n),
        flip_partner(flip_partner(i, cmask, tmask), cmask, tmask) == i,
        flip_partner(i, cmask, tmask) != i <==> i & cmask == cmask,
{
    assert(i ^ tmask < (1usize << n)) by (bit_vector)
        requires
            n < 64,
            i < (1usize << n),
            tmask < (1usize << n),
    ;
    assert((i ^ tmask) ^ tmask == i) by (bit_vector);
    assert(tmask != 0 ==> i ^ tmask != i) by (bit_vector);
    assert(tmask & cmask == 0 ==> ((i ^ tmask) & cmask == i & cmask)) by (bit_vector);
}

/// Flips the target bit `tmask` of every basis index whose control bits
/// `cmask` are all set: the amplitudes of each such pair of indices change
/// places.
pub fn apply_controlled_flip<T: Copy>(state: &mut Vec<T>, n: usize, cmask: usize, tmask: usize)
    requires
        n < usize::BITS,
        old(state)@.len() == (1usize << n),
        tmask < (1usize << n),
        tmask != 0,
        tmask & cmask == 0,
    ensures
        final(state)@.len() == old(state)@.len(),
        forall|i: int| 0 <= i < old(state)@.len() ==> #[trigger] final(state)@[i]
            == old(state)@[flip_partner(i as usize, cmask, tmask) as int],
{
    let len = state.len();
    let ghost orig = state@;
    let mut i: usize = 0;
    while i < len
        invariant
            len == orig.len(),
            len == (1usize << n),
            n < usize::BITS,
            tmask < (1usize << n),
            tmask != 0,
            tmask & cmask == 0,
            i <= len,
            state@.len() == len,
            forall|j: int| 0 <= j < len ==> #[trigger] state@[j] == if j < i || flip_partner(j as usize, cmask, tmask) < i {
                orig[flip_partner(j as usize, cmask, tmask) as int]
            } else {
                orig[j]
            },
        decreases len - i,
    {
        proof {
            lemma_flip_bits(i, cmask, tmask, n);
        }
        if (i & cmask) == cmask {
            let new: usize = i ^ tmask;
            if new > i {
                let a = state[i];
                let b = state[new];
                state.set(i, b);
                state.set(new, a);
                proof {
                    assert forall|j: int| 0 <= j < len implies #[trigger] state@[j] == if j < i + 1 || flip_partner(j as usize, cmask, tmask) < i + 1 {
                        orig[flip_partner(j as usize, cmask, tmask) as int]
                    } else {
                        orig[j]
                    } by {
                        lemma_flip_bits(j as usize, cmask, tmask, n);
                    }
                }
            } else {
                proof {
                    assert forall|j: int| 0 <= j < len implies #[trigger] state@[j] == if j < i + 1 || flip_partner(j as usize, cmask, tmask) < i + 1 {
                        orig[flip_partner(j as usize, cmask, tmask) as int]
                    } else {
                        orig[j]
                    } by {
                        lemma_flip_bits(j as usize, cmask, tmask, n);
                    }
                }
            }
        } else {
            proof {
                assert forall|j: int| 0 <= j < len implies #[trigger] state@[j] == if j < i + 1 || flip_partner(j as usize, cmask, tmask) < i + 1 {
                    orig[flip_partner(j as usize, cmask, tmask) as int]
                } else {
                    orig[j]
                } by {
                    lemma_flip_bits(j as usize, cmask, tmask, n);
                }
            }
        }
        i = i + 1;
    }
}


proof fn lemma_qubit_bit(n: usize, q: usize)
    requires
        q < n < usize::BITS,
    ensures
        qubit_bit(n, q) != 0,
        qubit_bit(n, q) < (1usize << n),
{
    let k: usize = (n - 1 - q) as usize;
    assert((1usize << k) != 0 && (1usize << k) < (1usize << n)) by (bit_vector)
        requires
            k < n,
            n < usize::BITS,
    ;
}

proof fn lemma_distinct_bits(n: usize, a: usize, b: usize)
    requires
        a < n < usize::BITS,
        b < n,
        a != b,
    ensures
        qubit_bit(n, a) & qubit_bit(n, b) == 0,
{
    let ka: usize = (n - 1 - a) as usize;
    let kb: usize = (n - 1 - b) as usize;
    assert((1usize << ka) & (1usize << kb) == 0) by (bit_vector)
        requires
            ka < 64,
            kb < 64,
            ka != kb,
    ;
}

/// The single target of a one-qubit gate: the first of `tgt`, if it is a
/// qubit of the register.
pub fn target_qubit(tgt: &Vec<usize>, n: usize) -> (res: Option<usize>)
    ensures
        res == (if tgt@.len() > 0 && tgt@[0] < n { Some(tgt@[0]) } else { None::<usize> }),
{
    if tgt.len() == 0 {
        return None;
    }
    let t = tgt[0];
    if t >= n {
        return None;
    }
    Some(t)
}

/// The bit of a basis index that holds qubit `q` of an `n`-qubit register.
pub fn qubit_mask(n: usize, q: usize) -> (res: usize)
    requires
        q < n < usize::BITS,
    ensures
        res == qubit_bit(n, q),
{
    1usize << ((n - 1) - q)
}

/// Pauli X on the qubit `tgt[0]`: the amplitudes of each pair of basis
/// states that differ in that qubit change places. Fails (leaving the
/// state) unless the target is a qubit of the register.
pub fn apply_pauli_x<T: Copy>(state: &mut Vec<T>, n: usize, tgt: &Vec<usize>) -> (res: bool)
    requires
        n < usize::BITS,
        old(state)@.len() == (1usize << n),
    ensures
        res == (tgt@.len() > 0 && tgt@[0] < n),
        !res ==> final(state)@ == old(state)@,
        res ==> final(state)@.len() == old(state)@.len() && forall|i: int| 0 <= i < old(state)@.len()
            ==> #[trigger] final(state)@[i] == old(state)@[(i as usize ^ qubit_bit(n, tgt@[0])) as int],
{
    let t = match target_qubit(tgt, n) {
        Some(t) => t,
        None => {
            return false;
        },
    };
    let mask: usize = qubit_mask(n, t);
    proof {
        lemma_qubit_bit(n, t);
        assert(mask & 0 == 0) by (bit_vector);
    }
    apply_controlled_flip(state, n, 0, mask);
    proof {
        assert forall|i: int| 0 <= i < old(state)@.len() implies #[trigger] state@[i] == old(state)@[(i as usize ^ mask) as int] by {
            let iu = i as usize;
            assert(iu & 0 == 0) by (bit_vector);
        }
    }
    true
}

/// CNOT with control `tgts[0]` and target `tgts[1]`: where the control is
/// 1 the target is flipped. Fails (leaving the state) unless both are
/// qubits of the register and differ.
pub fn apply_cnot<T: Copy>(state: &mut Vec<T>, n: usize, tgts: &Vec<usize>) -> (res: bool)
    requires
        n < usize::BITS,
        old(state)@.len() == (1usize << n),
    ensures
        res == (tgts@.len() >= 2 && tgts@[0] < n && tgts@[1] < n && tgts@[0] != tgts@[1]),
        !res ==> final(state)@ == old(state)@,
        res ==> final(state)@.len() == old(state)@.len() && forall|i: int| 0 <= i < old(state)@.len()
            ==> #[trigger] final(state)@[i] == old(state)@[flip_partner(
                i as usize,
                qubit_bit(n, tgts@[0]),
                qubit_bit(n, tgts@[1]),
            ) as int],
{
    if tgts.len() < 2 {
        return false;
    }
    let control = tgts[0];
    let tgt = tgts[1];
    if tgt >= n || control >= n {
        return false;
    }
    if tgt == control {
        return false;
    }
    let tgt_mask: usize = qubit_mask(n, tgt);
    let control_mask: usize = qubit_mask(n, control);
    proof {
        lemma_qubit_bit(n, tgt);
        lemma_distinct_bits(n, tgt, control);
    }
    apply_controlled_flip(state, n, control_mask, tgt_mask);
    true
}

/// Toffoli (CCNOT) with controls `tgts[0]`, `tgts[1]` and target
/// `tgts[2]`: where both controls are 1 the target is flipped. Fails
/// (leaving the state) unless all three are distinct qubits of the
/// register.
pub fn apply_toffoli<T: Copy>(state: &mut Vec<T>, n: usize, tgts: &Vec<usize>) -> (res: bool)
    requires
        n < usize::BITS,
        old(state)@.len() == (1usize << n),
    ensures
        res == (tgts@.len() >= 3 && tgts@[0] < n && tgts@[1] < n && tgts@[2] < n
            && tgts@[0] != tgts@[1] && tgts@[0] != tgts@[2] && tgts@[1] != tgts@[2]),
        !res ==> final(state)@ == old(state)@,
        res ==> final(state)@.len() == old(state)@.len() && forall|i: int| 0 <= i < old(state)@.len()
            ==> #[trigger] final(state)@[i] == old(state)@[flip_partner(
                i as usize,
                qubit_bit(n, tgts@[0]) | qubit_bit(n, tgts@[1]),
                qubit_bit(n, tgts@[2]),
            ) as int],
{
    if tgts.len() < 3 {
        return false;
    }
    let c1 = tgts[0];
    let c2 = tgts[1];
    let tgt = tgts[2];
    if c1 >= n || c2 >= n || tgt >= n {
        return false;
    }
    if c1 == c2 || c1 == tgt || c2 == tgt {
        return false;
    }
    let tgt_mask: usize = qubit_mask(n, tgt);
    let c1_mask: usize = qubit_mask(n, c1);
    let c2_mask: usize = qubit_mask(n, c2);
    proof {
        lemma_qubit_bit(n, tgt);
        lemma_distinct_bits(n, tgt, c1);
        lemma_distinct_bits(n, tgt, c2);
        assert(tgt_mask & (c1_mask | c2_mask) == 0) by (bit_vector)
            requires
                tgt_mask & c1_mask == 0,
                tgt_mask & c2_mask == 0,
        ;
    }
    apply_controlled_flip(state, n, c1_mask | c2_mask, tgt_mask);
    true
}


// ----- U_f -----

/// The function body that a black box evaluates.
pub open spec fn box_closure(f: &BlackBox) -> ClosureValue {
    closure_view(*f.method)
}

/// The low `m` bits.
pub open spec fn low_mask(m: usize) -> usize {
    ((1usize << m) - 1) as usize
}

/// `f` gives an `m`-bit value on the input part `i >> m` of index `i`.
pub open spec fn uf_ok(c: ClosureValue, n: usize, m: usize, i: usize) -> bool {
    black_box_result(c, n, i >> m) matches Ok(v) && v < (1usize << m)
}

/// The index `|x, y ^ f(x)>` of `i = |x, y>`, where `y` is the low `m` bits.
pub open spec fn uf_partner(c: ClosureValue, n: usize, m: usize, i: usize) -> usize {
    let fx = black_box_result(c, n, i >> m)->Ok_0;
    ((i >> m) << m) | ((i & low_mask(m)) ^ fx)
}

/// The state after the pairs of `U_f` whose first index lies below `k`
/// have changed places.
pub open spec fn uf_applied_below<T>(orig: Seq<T>, cur: Seq<T>, c: ClosureValue, n: usize, m: usize, k: int) -> bool {
    &&& cur.len() == orig.len()
    &&& forall|j: int| 0 <= j < orig.len() ==> #[trigger] cur[j] == if j < k || (uf_ok(c, n, m, j as usize)
        && uf_partner(c, n, m, j as usize) < k) {
        orig[uf_partner(c, n, m, j as usize) as int]
    } else {
        orig[j]
    }
}

/// Why `U_f` cannot be applied at index `i`.
pub open spec fn uf_failure(c: ClosureValue, n: usize, m: usize, i: usize) -> SpecRegisterError {
    match black_box_result(c, n, i >> m) {
        Err(e) => e,
        Ok(_) => SpecRegisterError::BlackBoxMisalign,
    }
}

proof fn lemma_uf_bits(i: usize, m: usize, k: usize, fx: usize)
    requires
        m <= k < usize::BITS,
        i < (1usize << k),
        fx < (1usize << m),
    ensures
        ({
            let p = ((i >> m) << m) | ((i & low_mask(m)) ^ fx);
            &&& p >> m == i >> m
            &&& ((p >> m) << m) | ((p & low_mask(m)) ^ fx) == i
            &&& p < (1usize << k)
        }),
{
    let ym: usize = low_mask(m);
    assert(ym == ((1usize << m) - 1) as usize);
    assert(({
        let p = ((i >> m) << m) | ((i & ym) ^ fx);
        &&& p >> m == i >> m
        &&& ((p >> m) << m) | ((p & ym) ^ fx) == i
        &&& p < (1usize << k)
    })) by (bit_vector)
        requires
            m <= k,
            k < usize::BITS,
            i < (1usize << k),
            fx < (1usize << m),
            ym == ((1usize << m) - 1) as usize,
    ;
}

/// `U_f |x, y> = |x, y ^ f(x)>` on the whole register, `x` being the
/// first `input_size` qubits and `y` the last `output_size`: the
/// amplitudes of `|x, y>` and `|x, y ^ f(x)>` change places. Fails with
/// `BlackBoxMisalign` (leaving the state) unless the register has exactly
/// `input_size + output_size` qubits; fails at the first index whose `f(x)`
/// fails or has more than `output_size` bits, when the pairs whose first
/// index lies below it have already changed places.
pub fn apply_u_f<T: Copy>(state: &mut Vec<T>, total_qubits: usize, f: &BlackBox) -> (res: Result<bool, RegisterError>)
    requires
        closure_wf(closure_view(*f.method)),
        f.input_size + f.output_size <= usize::MAX,
        total_qubits == f.input_size + f.output_size ==> total_qubits < usize::BITS
            && old(state)@.len() == (1usize << total_qubits),
    ensures
        ({
            let c = closure_view(*f.method);
            let n = f.input_size;
            let m = f.output_size;
            let len = old(state)@.len();
            &&& total_qubits != n + m ==> (res matches Err(e) && e@ == SpecRegisterError::BlackBoxMisalign
                && final(state)@ == old(state)@)
            &&& total_qubits == n + m ==> {
                &&& (res is Ok) <==> (forall|i: int| 0 <= i < len ==> #[trigger] uf_ok(c, n, m, i as usize))
                &&& res is Ok ==> res == Ok::<bool, RegisterError>(true) && final(state)@.len() == len
                    && forall|i: int| 0 <= i < len ==> #[trigger] final(state)@[i]
                        == old(state)@[uf_partner(c, n, m, i as usize) as int]
                &&& res matches Err(x) ==> (exists|i0: int| 0 <= i0 < len && !#[trigger] uf_ok(c, n, m, i0 as usize)
                    && (forall|j: int| 0 <= j < i0 ==> #[trigger] uf_ok(c, n, m, j as usize))
                    && x@ == uf_failure(c, n, m, i0 as usize)
                    && uf_applied_below(old(state)@, final(state)@, c, n, m, i0))
            }
        }),
{
    let n = f.input_size();
    let m = f.output_size();
    if total_qubits != n + m {
        return Err(RegisterError::BlackBoxMisalign);
    }
    let ghost c = box_closure(f);
    let ghost orig = state@;
    let len = state.len();
    assert((1usize << m) >= 1) by (bit_vector)
        requires
            m < usize::BITS,
    ;
    let y_mask: usize = (1usize << m) - 1;
    assert(y_mask == low_mask(m));
    let mut i: usize = 0;
    while i < len
        invariant
            c == closure_view(*f.method),
            closure_wf(c),
            n == f.input_size,
            m == f.output_size,
            total_qubits == n + m,
            total_qubits < usize::BITS,
            len == orig.len(),
            orig == old(state)@,
            len == (1usize << total_qubits),
            y_mask == low_mask(m),
            i <= len,
            state@.len() == len,
            forall|j: int| 0 <= j < i ==> #[trigger] uf_ok(c, n, m, j as usize),
            forall|j: int| 0 <= j < len ==> #[trigger] state@[j] == if j < i || (uf_ok(c, n, m, j as usize)
                && uf_partner(c, n, m, j as usize) < i) {
                orig[uf_partner(c, n, m, j as usize) as int]
            } else {
                orig[j]
            },
        decreases len - i,
    {
        let x: usize = i >> m;
        let y: usize = i & y_mask;
        let fx = match f.eval(x) {
            Ok(v) => v,
            Err(e) => {
                proof {
                    let ii = i as int;
                    assert(!uf_ok(c, n, m, ii as usize));
                    assert(uf_failure(c, n, m, ii as usize) == e@);
                    assert(!(forall|k: int| 0 <= k < len ==> #[trigger] uf_ok(c, n, m, k as usize)));
                    assert(uf_applied_below(orig, state@, c, n, m, ii));
                    assert(exists|i0: int| 0 <= i0 < len && !#[trigger] uf_ok(c, n, m, i0 as usize)
                        && (forall|j: int| 0 <= j < i0 ==> #[trigger] uf_ok(c, n, m, j as usize))
                        && e@ == uf_failure(c, n, m, i0 as usize)
                        && uf_applied_below(orig, state@, c, n, m, i0));
                }
                return Err(e);
            },
        };
        if fx >= (1usize << m) {
            proof {
                let ii = i as int;
                assert(!uf_ok(c, n, m, ii as usize));
                assert(uf_failure(c, n, m, ii as usize) == SpecRegisterError::BlackBoxMisalign);
                assert(!(forall|k: int| 0 <= k < len ==> #[trigger] uf_ok(c, n, m, k as usize)));
                assert(uf_applied_below(orig, state@, c, n, m, ii));
                assert(exists|i0: int| 0 <= i0 < len && !#[trigger] uf_ok(c, n, m, i0 as usize)
                    && (forall|j: int| 0 <= j < i0 ==> #[trigger] uf_ok(c, n, m, j as usize))
                    && SpecRegisterError::BlackBoxMisalign == uf_failure(c, n, m, i0 as usize)
                    && uf_applied_below(orig, state@, c, n, m, i0));
            }
            return Err(RegisterError::BlackBoxMisalign);
        }
        assert(uf_ok(c, n, m, i));
        proof {
            lemma_uf_bits(i, m, total_qubits, fx);
        }
        let new_y: usize = y ^ fx;
        let new_index: usize = (x << m) | new_y;
        assert(new_index == uf_partner(c, n, m, i));
        if i < new_index {
            let a = state[i];
            let b = state[new_index];
            state.set(i, b);
            state.set(new_index, a);
        }
        proof {
            assert forall|j: int| 0 <= j < len implies #[trigger] state@[j] == if j < i + 1 || (uf_ok(c, n, m, j as usize)
                && uf_partner(c, n, m, j as usize) < i + 1) {
                orig[uf_partner(c, n, m, j as usize) as int]
            } else {
                orig[j]
            } by {
                let ju = j as usize;
                if uf_ok(c, n, m, ju) {
                    let fj = black_box_result(c, n, ju >> m)->Ok_0;
                    lemma_uf_bits(ju, m, total_qubits, fj);
                }
            }
        }
        i = i + 1;
    }
    Ok(true)
}


// ----- laws -----

/// A controlled flip undoes itself: flipping the same target under the
/// same controls twice gives back the state.
pub proof fn lemma_controlled_flip_twice<T>(s0: Seq<T>, s1: Seq<T>, s2: Seq<T>, n: usize, cmask: usize, tmask: usize)
    requires
        n < usize::BITS,
        s0.len() == (1usize << n),
        tmask < (1usize << n),
        tmask != 0,
        tmask & cmask == 0,
        s1.len() == s0.len(),
        s2.len() == s1.len(),
        forall|i: int| 0 <= i < s0.len() ==> #[trigger] s1[i] == s0[flip_partner(i as usize, cmask, tmask) as int],
        forall|i: int| 0 <= i < s1.len() ==> #[trigger] s2[i] == s1[flip_partner(i as usize, cmask, tmask) as int],
    ensures
        s2 == s0,
{
    assert forall|i: int| 0 <= i < s0.len() implies #[trigger] s2[i] == s0[i] by {
        lemma_flip_bits(i as usize, cmask, tmask, n);
        let p = flip_partner(i as usize, cmask, tmask) as int;
        assert(s1[p] == s0[flip_partner(p as usize, cmask, tmask) as int]);
    }
    assert(s2 =~= s0);
}

/// Pauli X applied twice to the same qubit gives back the state.
pub proof fn lemma_pauli_x_twice<T>(s0: Seq<T>, s1: Seq<T>, s2: Seq<T>, n: usize, q: usize)
    requires
        q < n < usize::BITS,
        s0.len() == (1usize << n),
        s1.len() == s0.len(),
        s2.len() == s1.len(),
        forall|i: int| 0 <= i < s0.len() ==> #[trigger] s1[i] == s0[(i as usize ^ qubit_bit(n, q)) as int],
        forall|i: int| 0 <= i < s1.len() ==> #[trigger] s2[i] == s1[(i as usize ^ qubit_bit(n, q)) as int],
    ensures
        s2 == s0,
{
    lemma_qubit_bit(n, q);
    let t = qubit_bit(n, q);
    assert(t & 0 == 0) by (bit_vector);
    assert forall|i: int| 0 <= i < s0.len() implies #[trigger] s1[i] == s0[flip_partner(i as usize, 0, t) as int] by {
        let iu = i as usize;
        assert(iu & 0 == 0) by (bit_vector);
    }
    assert forall|i: int| 0 <= i < s1.len() implies #[trigger] s2[i] == s1[flip_partner(i as usize, 0, t) as int] by {
        let iu = i as usize;
        assert(iu & 0 == 0) by (bit_vector);
    }
    lemma_controlled_flip_twice(s0, s1, s2, n, 0, t);
}

/// CNOT applied twice with the same control and target gives back the
/// state.
pub proof fn lemma_cnot_twice<T>(s0: Seq<T>, s1: Seq<T>, s2: Seq<T>, n: usize, control: usize, target: usize)
    requires
        control < n < usize::BITS,
        target < n,
        control != target,
        s0.len() == (1usize << n),
        s1.len() == s0.len(),
        s2.len() == s1.len(),
        forall|i: int| 0 <= i < s0.len() ==> #[trigger] s1[i]
            == s0[flip_partner(i as usize, qubit_bit(n, control), qubit_bit(n, target)) as int],
        forall|i: int| 0 <= i < s1.len() ==> #[trigger] s2[i]
            == s1[flip_partner(i as usize, qubit_bit(n, control), qubit_bit(n, target)) as int],
    ensures
        s2 == s0,
{
    lemma_qubit_bit(n, target);
    lemma_distinct_bits(n, target, control);
    lemma_controlled_flip_twice(s0, s1, s2, n, qubit_bit(n, control), qubit_bit(n, target));
}

/// Toffoli applied twice with the same controls and target gives back
/// the state.
pub proof fn lemma_toffoli_twice<T>(s0: Seq<T>, s1: Seq<T>, s2: Seq<T>, n: usize, c1: usize, c2: usize, target: usize)
    requires
        c1 < n < usize::BITS,
        c2 < n,
        target < n,
        c1 != c2 && c1 != target && c2 != target,
        s0.len() == (1usize << n),
        s1.len() == s0.len(),
        s2.len() == s1.len(),
        forall|i: int| 0 <= i < s0.len() ==> #[trigger] s1[i]
            == s0[flip_partner(i as usize, qubit_bit(n, c1) | qubit_bit(n, c2), qubit_bit(n, target)) as int],
        forall|i: int| 0 <= i < s1.len() ==> #[trigger] s2[i]
            == s1[flip_partner(i as usize, qubit_bit(n, c1) | qubit_bit(n, c2), qubit_bit(n, target)) as int],
    ensures
        s2 == s0,
{
    lemma_qubit_bit(n, target);
    lemma_distinct_bits(n, target, c1);
    lemma_distinct_bits(n, target, c2);
    let t = qubit_bit(n, target);
    let a = qubit_bit(n, c1);
    let b = qubit_bit(n, c2);
    assert(t & (a | b) == 0) by (bit_vector)
        requires
            t & a == 0,
            t & b == 0,
    ;
    lemma_controlled_flip_twice(s0, s1, s2, n, a | b, t);
}

/// `U_f` applied twice gives back the state: `y ^ f(x) ^ f(x) == y`.
pub proof fn lemma_u_f_twice<T>(s0: Seq<T>, s1: Seq<T>, s2: Seq<T>, c: ClosureValue, n: usize, m: usize)
    requires
        n + m < usize::BITS,
        s0.len() == (1usize << (n + m) as usize),
        s1.len() == s0.len(),
        s2.len() == s1.len(),
        forall|i: int| 0 <= i < s0.len() ==> #[trigger] uf_ok(c, n, m, i as usize),
        forall|i: int| 0 <= i < s0.len() ==> #[trigger] s1[i] == s0[uf_partner(c, n, m, i as usize) as int],
        forall|i: int| 0 <= i < s1.len() ==> #[trigger] s2[i] == s1[uf_partner(c, n, m, i as usize) as int],
    ensures
        s2 == s0,
{
    let k = (n + m) as usize;
    assert forall|i: int| 0 <= i < s0.len() implies #[trigger] s2[i] == s0[i] by {
        let iu = i as usize;
        assert(uf_ok(c, n, m, iu));
        let fx = black_box_result(c, n, iu >> m)->Ok_0;
        lemma_uf_bits(iu, m, k, fx);
        let p = uf_partner(c, n, m, iu) as int;
        assert(s1[p] == s0[uf_partner(c, n, m, p as usize) as int]);
    }
    assert(s2 =~= s0);
}

} // verus!

use vstd::prelude::*;
use crate::engine::operator_helpers::qubit_bit;
use crate::engine::register_error::{RegisterError, SpecRegisterError};
use crate::interpreter::type_checker::byte_len;
use crate::text::chars_of;

verus! {

// The integer side of a register of qubits: its size, its initial pattern,
// the qubits that an operation names and what a measurement reads.

/// The most qubits a register may have.
pub const MAX_REGISTER_SIZE: usize = 16;

/// The number of amplitudes of an `n`-qubit register: `2^n`, for `n`
/// from 1 to `MAX_REGISTER_SIZE`.
pub fn register_dimension(n: usize) -> (res: Result<usize, RegisterError>)
    ensures
        n > MAX_REGISTER_SIZE ==> (res matches Err(e) && e@ == SpecRegisterError::TooManyQubits(n, MAX_REGISTER_SIZE)),
        n == 0 ==> (res matches Err(e) && e@ == SpecRegisterError::EmptyRegister),
        0 < n <= MAX_REGISTER_SIZE ==> res == Ok::<usize, RegisterError>(1usize << n),
{
    if n > MAX_REGISTER_SIZE {
        return Err(RegisterError::TooManyQubits(n, MAX_REGISTER_SIZE));
    }
    if n == 0 {
        return Err(RegisterError::EmptyRegister);
    }
    Ok(1usize << n)
}

/// The characters of an initial pattern: `0`, `1`, `+` and `-`.
pub open spec fn pattern_alphabet() -> Seq<char> {
    seq!['0', '1', '+', '-']
}

pub open spec fn pattern_char(c: char) -> bool {
    c == '0' || c == '1' || c == '+' || c == '-'
}

/// The first character of `p` outside the alphabet.
pub open spec fn first_bad_char(p: Seq<char>) -> Option<char>
    decreases p.len(),
{
    if p.len() == 0 {
        None
    } else if !pattern_char(p[0]) {
        Some(p[0])
    } else {
        first_bad_char(p.skip(1))
    }
}

/// Whether `p` can initialise a register: not empty, at most
/// `MAX_REGISTER_SIZE` bytes long, and drawn from the alphabet; its size
/// if so.
pub open spec fn pattern_check(p: Seq<char>) -> Result<usize, SpecRegisterError> {
    if byte_len(p) == 0 {
        Err(SpecRegisterError::EmptyRegister)
    } else if byte_len(p) > MAX_REGISTER_SIZE {
        Err(SpecRegisterError::TooManyQubits(byte_len(p), MAX_REGISTER_SIZE))
    } else {
        match first_bad_char(p) {
            Some(c) => Err(SpecRegisterError::InvalidQubit(c, pattern_alphabet())),
            None => Ok(byte_len(p)),
        }
    }
}

proof fn lemma_first_bad_char(p: Seq<char>, k: int)
    requires
        0 <= k <= p.len(),
        forall|j: int| 0 <= j < k ==> pattern_char(#[trigger] p[j]),
    ensures
        first_bad_char(p) == first_bad_char(p.skip(k)),
    decreases k,
{
    if k > 0 {
        lemma_first_bad_char(p, k - 1);
        assert(p.skip(k - 1).skip(1) =~= p.skip(k));
        assert(p.skip(k - 1)[0] == p[k - 1]);
        assert(pattern_char(p[k - 1]));
    } else {
        assert(p.skip(0) =~= p);
    }
}

/// Checks a pattern before a register is built from it, as
/// `QubitRegister::new_from_pattern` does; gives its size.
pub fn check_pattern(pattern: &String) -> (res: Result<usize, RegisterError>)
    ensures
        match pattern_check(pattern@) {
            Ok(n) => res == Ok::<usize, RegisterError>(n),
            Err(e) => res matches Err(x) && x@ == e,
        },
{
    let len: usize = pattern.as_str().len();
    if len == 0 {
        return Err(RegisterError::EmptyRegister);
    }
    if len > MAX_REGISTER_SIZE {
        return Err(RegisterError::TooManyQubits(len, MAX_REGISTER_SIZE));
    }
    assert(len == byte_len(pattern@));
    let cs = chars_of(pattern.as_str());
    let mut i: usize = 0;
    while i < cs.len()
        invariant
            i <= cs@.len(),
            cs@ == pattern@,
            len == byte_len(pattern@),
            0 < len <= MAX_REGISTER_SIZE,
            forall|j: int| 0 <= j < i ==> pattern_char(#[trigger] cs@[j]),
        decreases cs@.len() - i,
    {
        let c = cs[i];
        if !(c == '0' || c == '1' || c == '+' || c == '-') {
            proof {
                lemma_first_bad_char(cs@, i as int);
                assert(cs@.skip(i as int)[0] == c);
                assert(first_bad_char(cs@.skip(i as int)) == Some(c));
            }
            let mut alphabet: Vec<char> = Vec::new();
            alphabet.push('0');
            alphabet.push('1');
            alphabet.push('+');
            alphabet.push('-');
            assert(alphabet@ =~= pattern_alphabet());
            return Err(RegisterError::InvalidQubit(c, alphabet));
        }
        i = i + 1;
    }
    proof {
        lemma_first_bad_char(cs@, cs@.len() as int);
    }
    Ok(len)
}

// ----- the initial state of a pattern -----

/// The bits of `p` read as a binary numeral, most significant first: bit
/// `n - 1 - i` is set where character `i` satisfies `sel`.
pub open spec fn pattern_bits(p: Seq<char>, sel: spec_fn(char) -> bool) -> nat
    decreases p.len(),
{
    if p.len() == 0 {
        0
    } else {
        pattern_bits(p.drop_last(), sel) * 2 + if sel(p.last()) { 1nat } else { 0nat }
    }
}

/// The number of characters of `p` that satisfy `sel`.
pub open spec fn pattern_count(p: Seq<char>, sel: spec_fn(char) -> bool) -> nat
    decreases p.len(),
{
    if p.len() == 0 {
        0
    } else {
        pattern_count(p.drop_last(), sel) + if sel(p.last()) { 1nat } else { 0nat }
    }
}

pub open spec fn is_fixed(c: char) -> bool {
    c == '0' || c == '1'
}

pub open spec fn is_one(c: char) -> bool {
    c == '1'
}

pub open spec fn is_minus(c: char) -> bool {
    c == '-'
}

pub open spec fn is_superposed(c: char) -> bool {
    c == '+' || c == '-'
}

/// What an initial pattern fixes: the qubits set to `0` or `1` (and which
/// of them are `1`), the qubits set to `-`, and how many are `+` or `-`.
pub struct PatternMasks {
    pub fixed_mask: usize,
    pub fixed_values: usize,
    pub minus_mask: usize,
    pub superposed: usize,
}

proof fn lemma_bits_bound(p: Seq<char>, sel: spec_fn(char) -> bool)
    ensures
        pattern_bits(p, sel) < vstd::arithmetic::power2::pow2(p.len()),
        pattern_count(p, sel) <= p.len(),
    decreases p.len(),
{
    if p.len() > 0 {
        lemma_bits_bound(p.drop_last(), sel);
        vstd::arithmetic::power2::lemma_pow2_unfold(p.len());
    } else {
        vstd::arithmetic::power2::lemma2_to64();
    }
}

proof fn lemma_pattern_bit_at(p: Seq<char>, sel: spec_fn(char) -> bool, k: int)
    requires
        p.len() <= MAX_REGISTER_SIZE,
        0 <= k < p.len(),
    ensures
        ((pattern_bits(p, sel) as usize) >> ((p.len() - 1 - k) as usize)) & 1 == (if sel(p[k]) { 1usize } else { 0usize }),
    decreases p.len(),
{
    let n = p.len();
    let q = p.drop_last();
    lemma_bits_bound(q, sel);
    vstd::arithmetic::power2::lemma2_to64();
    if n - 1 < 15 {
        vstd::arithmetic::power2::lemma_pow2_strictly_increases((n - 1) as nat, 15);
    }
    let b: usize = pattern_bits(q, sel) as usize;
    let c: usize = if sel(p.last()) { 1 } else { 0 };
    assert(b < 0x8000);
    assert(pattern_bits(p, sel) == b * 2 + c);
    let x: usize = (b * 2 + c) as usize;
    if k == n - 1 {
        assert((x >> 0usize) & 1 == c) by (bit_vector)
            requires
                x == b * 2 + c,
                b < 0x8000,
                c <= 1,
        ;
    } else {
        let sh: usize = (n - 1 - k) as usize;
        assert((x >> sh) & 1 == (b >> ((sh - 1) as usize)) & 1) by (bit_vector)
            requires
                x == b * 2 + c,
                b < 0x8000,
                c <= 1,
                1 <= sh <= 16,
        ;
        lemma_pattern_bit_at(q, sel, k);
        assert(q[k] == p[k]);
    }
}

/// Character `k` of a pattern of `n` characters stands for qubit `k`: it
/// sets, in the mask of the characters that `sel` selects, the bit that
/// gates and measurements use for qubit `k` (`qubit_bit(n, k)`), and only
/// where `sel` selects it.
pub proof fn lemma_pattern_mask_by_qubit(p: Seq<char>, sel: spec_fn(char) -> bool, k: int)
    requires
        p.len() <= MAX_REGISTER_SIZE,
        0 <= k < p.len(),
    ensures
        ((pattern_bits(p, sel) as usize) & qubit_bit(p.len() as usize, k as usize) != 0) == sel(p[k]),
{
    lemma_pattern_bit_at(p, sel, k);
    let x: usize = pattern_bits(p, sel) as usize;
    let sh: usize = (p.len() - 1 - k) as usize;
    assert(qubit_bit(p.len() as usize, k as usize) == (1usize << sh));
    assert((x & (1usize << sh) != 0) == ((x >> sh) & 1 == 1)) by (bit_vector)
        requires
            sh < 16,
    ;
}

/// The masks of an initial pattern of at most `MAX_REGISTER_SIZE`
/// characters.
pub fn pattern_masks(pattern: &String) -> (res: PatternMasks)
    requires
        pattern@.len() <= MAX_REGISTER_SIZE,
    ensures
        res.fixed_mask == pattern_bits(pattern@, |c: char| is_fixed(c)),
        res.fixed_values == pattern_bits(pattern@, |c: char| is_one(c)),
        res.minus_mask == pattern_bits(pattern@, |c: char| is_minus(c)),
        res.superposed == pattern_count(pattern@, |c: char| is_superposed(c)),
{
    let cs = chars_of(pattern.as_str());
    let ghost p = cs@;
    let ghost fixed = |c: char| is_fixed(c);
    let ghost one = |c: char| is_one(c);
    let ghost minus = |c: char| is_minus(c);
    let ghost sup = |c: char| is_superposed(c);
    let mut fixed_mask: usize = 0;
    let mut fixed_values: usize = 0;
    let mut minus_mask: usize = 0;
    let mut k: usize = 0;
    let mut i: usize = 0;
    assert(p.take(0) =~= Seq::<char>::empty());
    while i < cs.len()
        invariant
            i <= p.len(),
            p == cs@,
            p.len() <= MAX_REGISTER_SIZE,
            fixed == (|c: char| is_fixed(c)),
            one == (|c: char| is_one(c)),
            minus == (|c: char| is_minus(c)),
            sup == (|c: char| is_superposed(c)),
            fixed_mask == pattern_bits(p.take(i as int), fixed),
            fixed_values == pattern_bits(p.take(i as int), one),
            minus_mask == pattern_bits(p.take(i as int), minus),
            k == pattern_count(p.take(i as int), sup),
        decreases p.len() - i,
    {
        let c = cs[i];
        let ghost q = p.take(i + 1);
        assert(q.drop_last() =~= p.take(i as int));
        assert(q.last() == c);
        proof {
            lemma_bits_bound(p.take(i as int), fixed);
            lemma_bits_bound(p.take(i as int), one);
            lemma_bits_bound(p.take(i as int), minus);
            lemma_bits_bound(p.take(i as int), sup);
            vstd::arithmetic::power2::lemma_pow2_strictly_increases(i as nat, 16);
            vstd::arithmetic::power2::lemma2_to64();
        }
        let f: usize = if c == '0' || c == '1' { 1 } else { 0 };
        let o: usize = if c == '1' { 1 } else { 0 };
        let m: usize = if c == '-' { 1 } else { 0 };
        let s: usize = if c == '+' || c == '-' { 1 } else { 0 };
        fixed_mask = fixed_mask * 2 + f;
        fixed_values = fixed_values * 2 + o;
        minus_mask = minus_mask * 2 + m;
        k = k + s;
        i = i + 1;
    }
    assert(p.take(p.len() as int) =~= p);
    PatternMasks { fixed_mask, fixed_values, minus_mask, superposed: k }
}

/// Whether the number of set bits of `x` is odd.
pub open spec fn odd_parity(x: nat) -> bool
    decreases x,
{
    if x == 0 {
        false
    } else {
        odd_parity(x / 2) != (x % 2 == 1)
    }
}

/// The sign of the amplitude of basis state `i` in the state a pattern
/// describes: none where `i` disagrees with a fixed qubit (the amplitude
/// is 0), else whether it is negative (an odd number of `-` qubits of `i`
/// are 1).
pub open spec fn basis_sign_spec(i: usize, m: PatternMasks) -> Option<bool> {
    if i & m.fixed_mask != m.fixed_values {
        None
    } else {
        Some(odd_parity((i & m.minus_mask) as nat))
    }
}

pub fn basis_sign(i: usize, masks: &PatternMasks) -> (res: Option<bool>)
    ensures
        res == basis_sign_spec(i, *masks),
{
    if (i & masks.fixed_mask) != masks.fixed_values {
        return None;
    }
    let x: usize = i & masks.minus_mask;
    let mut v: usize = x;
    let mut odd: bool = false;
    while v > 0
        invariant
            (odd != odd_parity(v as nat)) == odd_parity(x as nat),
        decreases v,
    {
        if v % 2 == 1 {
            odd = !odd;
        }
        v = v / 2;
    }
    Some(odd)
}

proof fn lemma_parity_step(y: nat)
    ensures
        odd_parity(y) == (odd_parity(y / 2) != (y % 2 == 1)),
{
    if y == 0 {
        assert(odd_parity(0) == false);
    }
}

/// Flipping one bit flips the parity of the number of set bits.
pub proof fn lemma_parity_flip(x: usize, b: usize)
    requires
        b < usize::BITS,
    ensures
        odd_parity((x ^ (1usize << b)) as nat) == !odd_parity(x as nat),
    decreases b,
{
    let y = x ^ (1usize << b);
    lemma_parity_step(y as nat);
    lemma_parity_step(x as nat);
    if b == 0 {
        assert(y / 2 == x / 2 && (y % 2 == 1) == !(x % 2 == 1)) by (bit_vector)
            requires
                y == x ^ (1usize << 0usize),
        ;
    } else {
        let h: usize = x / 2;
        assert(y / 2 == h ^ (1usize << ((b - 1) as usize)) && y % 2 == x % 2) by (bit_vector)
            requires
                y == x ^ (1usize << b),
                h == x / 2,
                0 < b < usize::BITS,
        ;
        lemma_parity_flip(h, (b - 1) as usize);
    }
}

/// The amplitudes of a pattern's state change sign with its `-` qubits:
/// flipping a qubit that the pattern does not fix keeps whether the
/// amplitude is zero; where it is not, flipping a `-` qubit flips the sign
/// and flipping a `+` qubit keeps it.
pub proof fn lemma_basis_sign_flip(i: usize, m: PatternMasks, b: usize)
    requires
        b < usize::BITS,
        (1usize << b) & m.fixed_mask == 0,
    ensures
        (basis_sign_spec(i ^ (1usize << b), m) is Some) == (basis_sign_spec(i, m) is Some),
        (1usize << b) & m.minus_mask != 0 ==> (basis_sign_spec(i, m) matches Some(s)
            ==> basis_sign_spec(i ^ (1usize << b), m) == Some(!s)),
        (1usize << b) & m.minus_mask == 0 ==> basis_sign_spec(i ^ (1usize << b), m) == basis_sign_spec(i, m),
{
    let fm = m.fixed_mask;
    let mm = m.minus_mask;
    let j = i ^ (1usize << b);
    assert(j & fm == i & fm) by (bit_vector)
        requires
            j == i ^ (1usize << b),
            (1usize << b) & fm == 0,
    ;
    assert((1usize << b) & mm != 0 ==> j & mm == (i & mm) ^ (1usize << b)) by (bit_vector)
        requires
            j == i ^ (1usize << b),
            b < usize::BITS,
    ;
    assert((1usize << b) & mm == 0 ==> j & mm == i & mm) by (bit_vector)
        requires
            j == i ^ (1usize << b),
    ;
    lemma_parity_flip(i & mm, b);
}

/// A basis state that agrees with the fixed qubits and has none of the
/// `-` qubits set has a positive amplitude.
pub proof fn lemma_basis_sign_positive(i: usize, m: PatternMasks)
    requires
        i & m.fixed_mask == m.fixed_values,
        i & m.minus_mask == 0,
    ensures
        basis_sign_spec(i, m) == Some(false),
{
}

// ----- targets and measurements -----

/// The first of `tgts` that is not a qubit of an `n`-qubit register.
pub open spec fn first_out_of_range(tgts: Seq<usize>, n: usize) -> Option<usize>
    decreases tgts.len(),
{
    if tgts.len() == 0 {
        None
    } else if tgts[0] >= n {
        Some(tgts[0])
    } else {
        first_out_of_range(tgts.skip(1), n)
    }
}

/// Fails with `OutOfRange` on the first target that is not a qubit of an
/// `n`-qubit register.
pub fn check_targets(targets: &Vec<usize>, n: usize) -> (res: Result<(), RegisterError>)
    ensures
        match first_out_of_range(targets@, n) {
            None => res is Ok,
            Some(t) => res matches Err(e) && e@ == SpecRegisterError::OutOfRange(t, n),
        },
        res is Ok <==> forall|i: int| 0 <= i < targets@.len() ==> #[trigger] targets@[i] < n,
{
    let mut i: usize = 0;
    assert(targets@.skip(0) =~= targets@);
    while i < targets.len()
        invariant
            i <= targets@.len(),
            first_out_of_range(targets@, n) == first_out_of_range(targets@.skip(i as int), n),
            forall|j: int| 0 <= j < i ==> #[trigger] targets@[j] < n,
        decreases targets@.len() - i,
    {
        assert(targets@.skip(i as int).skip(1) =~= targets@.skip(i + 1));
        if targets[i] >= n {
            return Err(RegisterError::OutOfRange(targets[i], n));
        }
        i = i + 1;
    }
    Ok(())
}

/// The bits of the measured qubits.
pub open spec fn mask_of(tgts: Seq<usize>, n: usize) -> usize
    decreases tgts.len(),
{
    if tgts.len() == 0 {
        0
    } else {
        mask_of(tgts.drop_last(), n) | qubit_bit(n, tgts.last())
    }
}

/// The bits of a basis index that a measurement of `tgts` reads.
pub fn measurement_mask(tgts: &Vec<usize>, n: usize) -> (res: usize)
    requires
        n < usize::BITS,
        forall|i: int| 0 <= i < tgts@.len() ==> #[trigger] tgts@[i] < n,
    ensures
        res == mask_of(tgts@, n),
{
    let mut mask: usize = 0;
    let mut i: usize = 0;
    assert(tgts@.take(0) =~= Seq::<usize>::empty());
    while i < tgts.len()
        invariant
            i <= tgts@.len(),
            n < usize::BITS,
            forall|j: int| 0 <= j < tgts@.len() ==> #[trigger] tgts@[j] < n,
            mask == mask_of(tgts@.take(i as int), n),
        decreases tgts@.len() - i,
    {
        assert(tgts@.take(i + 1).drop_last() =~= tgts@.take(i as int));
        let q = tgts[i];
        mask = mask | (1usize << ((n - 1) - q));
        i = i + 1;
    }
    assert(tgts@.take(tgts@.len() as int) =~= tgts@);
    mask
}

/// The measured bit of qubit `q` in the outcome `key`.
pub open spec fn outcome_bit(key: usize, n: usize, q: usize) -> usize {
    (key >> ((n - 1 - q) as usize)) & 1
}

/// The measured bit of qubit `q` is 1 exactly when the outcome has the bit
/// of qubit `q` set (the bit that gates and `measurement_mask` use for it),
/// and is 0 otherwise.
pub proof fn lemma_outcome_bit_reads_the_qubit(key: usize, n: usize, q: usize)
    requires
        q < n <= usize::BITS,
    ensures
        outcome_bit(key, n, q) == (if key & qubit_bit(n, q) != 0 { 1usize } else { 0usize }),
        mask_of(seq![q], n) == qubit_bit(n, q),
{
    let s: usize = (n - 1 - q) as usize;
    assert(((key >> s) & 1) == (if key & (1usize << s) != 0 { 1usize } else { 0usize })) by (bit_vector)
        requires
            s < usize::BITS,
    ;
    assert(seq![q].drop_last() =~= Seq::<usize>::empty());
    assert(mask_of(Seq::<usize>::empty(), n) == 0);
    assert(qubit_bit(n, q) == (1usize << s));
    assert(0usize | (1usize << s) == (1usize << s)) by (bit_vector);
    assert(mask_of(seq![q], n) == mask_of(seq![q].drop_last(), n) | qubit_bit(n, seq![q].last()));
}

/// The bits of the measured qubits in an outcome, in the order of `tgts`.
pub fn outcome_bits(key: usize, tgts: &Vec<usize>, n: usize) -> (res: Vec<usize>)
    requires
        n <= usize::BITS,
        forall|i: int| 0 <= i < tgts@.len() ==> #[trigger] tgts@[i] < n,
    ensures
        res@.len() == tgts@.len(),
        forall|i: int| 0 <= i < tgts@.len() ==> #[trigger] res@[i] == outcome_bit(key, n, tgts@[i]),
        forall|i: int| 0 <= i < tgts@.len() ==> #[trigger] res@[i]
            == (if key & qubit_bit(n, tgts@[i]) != 0 { 1usize } else { 0usize }),
{
    let mut result: Vec<usize> = Vec::new();
    let mut i: usize = 0;
    while i < tgts.len()
        invariant
            i <= tgts@.len(),
            n <= usize::BITS,
            forall|j: int| 0 <= j < tgts@.len() ==> #[trigger] tgts@[j] < n,
            result@.len() == i,
            forall|j: int| 0 <= j < i ==> #[trigger] result@[j] == outcome_bit(key, n, tgts@[j]),
        decreases tgts@.len() - i,
    {
        let q = tgts[i];
        result.push((key >> ((n - 1) - q)) & 1);
        i = i + 1;
    }
    assert forall|i: int| 0 <= i < tgts@.len() implies #[trigger] result@[i]
        == (if key & qubit_bit(n, tgts@[i]) != 0 { 1usize } else { 0usize }) by {
        lemma_outcome_bit_reads_the_qubit(key, n, tgts@[i]);
    }
    result
}

} // verus!

use vstd::prelude::*;
use crate::interpreter::evaluator::runtime_error::{RuntimeError, SpecRuntimeError};
use crate::interpreter::evaluator::semantics::{Lookup, index_of_ref, size_of_ref, total_size};

verus! {

pub open spec fn lookup_view(t: Seq<(String, usize)>) -> Lookup {
    t.map_values(|p: (String, usize)| (p.0@, p.1))
}

/// The total splits as the first size plus the rest.
pub proof fn lemma_total_first(t: Lookup)
    requires
        t.len() > 0,
    ensures
        total_size(t) == t[0].1 + total_size(t.skip(1)),
    decreases t.len(),
{
    if t.len() > 1 {
        lemma_total_first(t.drop_last());
        assert(t.drop_last().skip(1) =~= t.skip(1).drop_last());
    } else {
        assert(t.drop_last() =~= Seq::<(Seq<char>, usize)>::empty());
        assert(t.skip(1) =~= Seq::<(Seq<char>, usize)>::empty());
    }
}

/// A resolved position lies inside the whole register.
pub proof fn lemma_index_bound(t: Lookup, name: Seq<char>, plus: usize)
    ensures
        index_of_ref(t, name, plus) matches Ok(j) ==> 0 <= j < total_size(t) && j >= plus,
        (index_of_ref(t, name, plus) is Ok) <==> (size_of_ref(t, name) matches Some(n) && plus < n),
        size_of_ref(t, name) matches Some(n) ==> index_of_ref(t, name, 0) matches Ok(j) ==> j + n <= total_size(t) || n == 0,
    decreases t.len(),
{
    if t.len() > 0 {
        lemma_total_first(t);
        lemma_index_bound(t.skip(1), name, plus);
        lemma_index_bound(t.skip(1), name, 0);
        lemma_total_nonneg(t.skip(1));
    }
}

pub proof fn lemma_total_nonneg(t: Lookup)
    ensures
        total_size(t) >= 0,
    decreases t.len(),
{
    if t.len() > 0 {
        lemma_total_nonneg(t.drop_last());
    }
}

/// The position of qubit `plus` of the register `identifier` in the whole
/// register; fails if there is no such register or it has no such qubit.
pub fn get_index(table: &Vec<(String, usize)>, identifier: &String, plus: usize) -> (res: Result<usize, RuntimeError>)
    requires
        total_size(lookup_view(table@)) <= usize::MAX,
    ensures
        match index_of_ref(lookup_view(table@), identifier@, plus) {
            Ok(j) => res == Ok::<usize, RuntimeError>(j as usize),
            Err(e) => res matches Err(x) && x@ == e,
        },
{
    let ghost tv = lookup_view(table@);
    let mut curr_idx: usize = 0;
    let mut i: usize = 0;
    proof {
        lemma_index_bound(tv, identifier@, plus);
        assert(tv.skip(0) =~= tv);
    }
    while i < table.len()
        invariant
            i <= table@.len(),
            tv == lookup_view(table@),
            total_size(tv) <= usize::MAX,
            curr_idx + total_size(tv.skip(i as int)) == total_size(tv),
            index_of_ref(tv, identifier@, plus) == match index_of_ref(tv.skip(i as int), identifier@, plus) {
                Ok(j) => Ok(curr_idx + j),
                Err(e) => Err(e),
            },
        decreases table@.len() - i,
    {
        let ghost rest = tv.skip(i as int);
        proof {
            lemma_total_first(rest);
            lemma_index_bound(rest, identifier@, plus);
            lemma_total_nonneg(rest.skip(1));
            assert(rest.skip(1) =~= tv.skip(i + 1));
            assert(rest[0] == (table@[i as int].0@, table@[i as int].1));
        }
        let name = &table[i].0;
        let length = table[i].1;
        if *name != *identifier {
            curr_idx += length;
            i = i + 1;
            continue;
        }
        if plus < length {
            return Ok(curr_idx + plus);
        } else {
            return Err(RuntimeError::OutOfBounds(identifier.clone(), plus));
        }
    }
    Err(RuntimeError::VarNotFound(identifier.clone()))
}

/// The size of the register `identifier`, as first declared.
pub fn register_size(table: &Vec<(String, usize)>, identifier: &String) -> (res: Option<usize>)
    ensures
        res == size_of_ref(lookup_view(table@), identifier@),
{
    let ghost tv = lookup_view(table@);
    let mut i: usize = 0;
    assert(tv.skip(0) =~= tv);
    while i < table.len()
        invariant
            i <= table@.len(),
            tv == lookup_view(table@),
            size_of_ref(tv, identifier@) == size_of_ref(tv.skip(i as int), identifier@),
        decreases table@.len() - i,
    {
        let ghost rest = tv.skip(i as int);
        assert(rest.skip(1) =~= tv.skip(i + 1));
        assert(rest[0] == (table@[i as int].0@, table@[i as int].1));
        if table[i].0 == *identifier {
            return Some(table[i].1);
        }
        i = i + 1;
    }
    None
}

} // verus!

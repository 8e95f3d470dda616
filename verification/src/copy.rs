//! Copies of terms.

use crate::term::{entries_view, terms_view, ImproperList, InternalFun, List, Mapping, Term, Tuple};
use vstd::prelude::*;

verus! {

/// A copy of each of the terms, in their order.
fn clone_terms(terms: &Vec<Term>) -> (r: Vec<Term>)
    ensures
        terms_view(r@) == terms_view(terms@),
    decreases terms, 0nat,
{
    let mut copies: Vec<Term> = Vec::new();
    let mut i: usize = 0;
    while i < terms.len()
        invariant
            i <= terms@.len(),
            copies@.len() == i,
            forall|j: int| 0 <= j < i ==> (#[trigger] copies@[j])@ == terms@[j]@,
        decreases terms@.len() - i,
    {
        copies.push(terms[i].clone());
        i += 1;
    }
    assert(terms_view(copies@) =~= terms_view(terms@));
    copies
}

/// A copy of each of the entries, in their order.
fn clone_entries(entries: &Vec<(Term, Term)>) -> (r: Vec<(Term, Term)>)
    ensures
        entries_view(r@) == entries_view(entries@),
    decreases entries, 0nat,
{
    let mut copies: Vec<(Term, Term)> = Vec::new();
    let mut i: usize = 0;
    while i < entries.len()
        invariant
            i <= entries@.len(),
            copies@.len() == i,
            forall|j: int|
                0 <= j < i ==> (#[trigger] copies@[j]).0@ == entries@[j].0@ && copies@[j].1@
                    == entries@[j].1@,
        decreases entries@.len() - i,
    {
        let entry = &entries[i];
        copies.push((entry.0.clone(), entry.1.clone()));
        i += 1;
    }
    assert(entries_view(copies@) =~= entries_view(entries@));
    copies
}

impl Clone for InternalFun {
    fn clone(&self) -> (r: Self)
        ensures
            r@ == self@,
        decreases self,
    {
        match self {
            InternalFun::Old { module, pid, free_vars, index, uniq } => InternalFun::Old {
                module: module.clone(),
                pid: pid.clone(),
                free_vars: clone_terms(free_vars),
                index: *index,
                uniq: *uniq,
            },
            InternalFun::New {
                module,
                arity,
                pid,
                free_vars,
                index,
                uniq,
                old_index,
                old_uniq,
            } => InternalFun::New {
                module: module.clone(),
                arity: *arity,
                pid: pid.clone(),
                free_vars: clone_terms(free_vars),
                index: *index,
                uniq: *uniq,
                old_index: *old_index,
                old_uniq: *old_uniq,
            },
        }
    }
}

impl Clone for List {
    fn clone(&self) -> (r: Self)
        ensures
            r@ == self@,
        decreases self,
    {
        List { elements: clone_terms(&self.elements) }
    }
}

impl Clone for ImproperList {
    fn clone(&self) -> (r: Self)
        ensures
            r@ == self@,
        decreases self,
    {
        ImproperList { elements: clone_terms(&self.elements), last: Box::new((*self.last).clone()) }
    }
}

impl Clone for Tuple {
    fn clone(&self) -> (r: Self)
        ensures
            r@ == self@,
        decreases self,
    {
        Tuple { elements: clone_terms(&self.elements) }
    }
}

impl Clone for Mapping {
    fn clone(&self) -> (r: Self)
        ensures
            r@ == self@,
        decreases self,
    {
        Mapping { entries: clone_entries(&self.entries) }
    }
}

impl Clone for Term {
    fn clone(&self) -> (r: Self)
        ensures
            r@ == self@,
        decreases self,
    {
        match self {
            Term::Atom(x) => Term::Atom(x.clone()),
            Term::FixInteger(x) => Term::FixInteger(*x),
            Term::BigInteger(x) => Term::BigInteger(x.clone()),
            Term::Float(x) => Term::Float(*x),
            Term::Pid(x) => Term::Pid(x.clone()),
            Term::Port(x) => Term::Port(x.clone()),
            Term::Reference(x) => Term::Reference(x.clone()),
            Term::ExternalFun(x) => Term::ExternalFun(x.clone()),
            Term::InternalFun(x) => Term::InternalFun(x.clone()),
            Term::Binary(x) => Term::Binary(x.clone()),
            Term::BitBinary(x) => Term::BitBinary(x.clone()),
            Term::List(x) => Term::List(x.clone()),
            Term::ImproperList(x) => Term::ImproperList(x.clone()),
            Term::Tuple(x) => Term::Tuple(x.clone()),
            Term::Mapping(x) => Term::Mapping(x.clone()),
        }
    }
}

} // verus!

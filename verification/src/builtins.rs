//! The built-in operations on S-expressions.

use vstd::prelude::*;
use crate::errors::{Error, ErrorView, EvalError, EvalErrorView};
use crate::parser::Position;
use crate::parser::parser::{
    independant_sexp, items_view, lemma_view_atom, lemma_view_list, read_view, Atom, AtomView,
    Sexp, SexpT, SexpTView, SexpView,
};

verus! {

/// The symbol `t` at no position: the answer "true".
pub open spec fn truth() -> SexpView {
    SexpView::atom(AtomView::Symbol("t"@))
}

/// The failure of an operation that takes a list and was given `s`.
pub open spec fn not_a_list(s: SexpView) -> ErrorView {
    ErrorView::EvalError(EvalErrorView::TypeMismatch(s.sexpt, "list"@, s.pos))
}

/// The first item of a list, or the empty list where it has none; a value
/// that is no list is a `TypeMismatch`.
pub open spec fn car_of(list: SexpView) -> Result<SexpView, ErrorView> {
    match list.sexpt {
        SexpTView::List(items) => if items.len() > 0 {
            Ok(items[0])
        } else {
            Ok(SexpView::nil())
        },
        SexpTView::Atom(_) => Err(not_a_list(list)),
    }
}

/// The list of the items after the first, or the empty list where there are
/// none; a value that is no list is a `TypeMismatch`.
pub open spec fn cdr_of(list: SexpView) -> Result<SexpView, ErrorView> {
    match list.sexpt {
        SexpTView::List(items) => if items.len() > 0 {
            Ok(
                SexpView {
                    sexpt: SexpTView::List(items.subrange(1, items.len() as int)),
                    pos: Position(0, 0),
                },
            )
        } else {
            Ok(SexpView::nil())
        },
        SexpTView::Atom(_) => Err(not_a_list(list)),
    }
}

/// The list with `item` put before its items; a value that is no list is a
/// `TypeMismatch`.
pub open spec fn cons_of(item: SexpView, list: SexpView) -> Result<SexpView, ErrorView> {
    match list.sexpt {
        SexpTView::List(items) => Ok(
            SexpView { sexpt: SexpTView::List(seq![item] + items), pos: Position(0, 0) },
        ),
        SexpTView::Atom(_) => Err(not_a_list(list)),
    }
}

/// The position-free value of a list is the list of the position-free
/// values of its items.
pub proof fn lemma_unplaced_list(s: SexpView)
    requires
        s.sexpt is List,
    ensures
        s.unplaced().pos == Position(0, 0),
        s.unplaced().sexpt is List,
        s.unplaced().sexpt->List_0.len() == s.sexpt->List_0.len(),
        forall|k: int|
            0 <= k < s.sexpt->List_0.len() ==> #[trigger] s.unplaced().sexpt->List_0[k]
                == s.sexpt->List_0[k].unplaced(),
{
}

/// The position-free value of an atom is the atom at no position.
pub proof fn lemma_unplaced_atom(s: SexpView)
    requires
        s.sexpt is Atom,
    ensures
        s.unplaced() == SexpView::atom(s.sexpt->Atom_0),
{
}

/// The S-expression itself.
pub fn quote(sexp: Sexp) -> (r: Sexp)
    ensures
        r == sexp,
{
    sexp
}

/// The symbol `t` at no position.
fn truthy() -> (r: Sexp)
    ensures
        r@ == truth(),
{
    let r = independant_sexp(SexpT::Atom(Atom::Symbol(String::from_str("t"))));
    proof {
        lemma_view_atom(r);
    }
    r
}

/// The empty list at no position.
fn empty_list() -> (r: Sexp)
    ensures
        r@ == SexpView::nil(),
{
    let r = independant_sexp(SexpT::List(Vec::new()));
    proof {
        lemma_view_list(r);
        assert(items_view(r.sexpt->List_0@) =~= Seq::empty());
    }
    r
}

/// The failure of an operation that takes a list and was given the atom
/// `sexpt` at `pos`.
fn type_mismatch(sexpt: SexpT, pos: Position) -> (e: Error)
    requires
        sexpt is Atom,
    ensures
        e@ == not_a_list(Sexp { sexpt, pos }@),
{
    proof {
        lemma_view_atom(Sexp { sexpt, pos });
    }
    Error::EvalError(EvalError::TypeMismatch(sexpt, String::from_str("list"), pos))
}

/// The first item of `list`, or the empty list where it has none. Fails
/// with `TypeMismatch` where `list` is an atom.
pub fn car(list: Sexp) -> (r: Result<Sexp, Error>)
    ensures
        read_view(r) == car_of(list@),
{
    proof {
        if list.sexpt is List {
            lemma_view_list(list);
        } else {
            lemma_view_atom(list);
        }
    }
    match list.sexpt {
        SexpT::List(v) => {
            let mut v = v;
            if v.len() > 0 {
                Ok(v.remove(0))
            } else {
                Ok(empty_list())
            }
        },
        other => Err(type_mismatch(other, list.pos)),
    }
}

/// The list of the items of `list` after the first, or the empty list where
/// it has fewer than two. Fails with `TypeMismatch` where `list` is an atom.
pub fn cdr(list: Sexp) -> (r: Result<Sexp, Error>)
    ensures
        read_view(r) == cdr_of(list@),
{
    proof {
        if list.sexpt is List {
            lemma_view_list(list);
        } else {
            lemma_view_atom(list);
        }
    }
    match list.sexpt {
        SexpT::List(v) => {
            let mut v = v;
            let ghost before = v@;
            if v.len() > 0 {
                let _ = v.remove(0);
                let r = independant_sexp(SexpT::List(v));
                proof {
                    lemma_view_list(r);
                    assert(items_view(v@) =~= items_view(before).subrange(
                        1,
                        before.len() as int,
                    ));
                }
                Ok(r)
            } else {
                Ok(empty_list())
            }
        },
        other => Err(type_mismatch(other, list.pos)),
    }
}

/// The list `list` with `item` put before its items. Fails with
/// `TypeMismatch` where `list` is an atom.
pub fn cons(item: Sexp, list: Sexp) -> (r: Result<Sexp, Error>)
    ensures
        read_view(r) == cons_of(item@, list@),
{
    proof {
        if list.sexpt is List {
            lemma_view_list(list);
        } else {
            lemma_view_atom(list);
        }
    }
    match list.sexpt {
        SexpT::List(v) => {
            let mut v = v;
            let ghost before = v@;
            v.insert(0, item);
            let r = independant_sexp(SexpT::List(v));
            proof {
                lemma_view_list(r);
                assert(items_view(v@) =~= seq![item@] + items_view(before));
            }
            Ok(r)
        },
        other => Err(type_mismatch(other, list.pos)),
    }
}

/// The symbol `t` where `sexp` is an atom, the empty list where it is a
/// list; either at no position.
pub fn atom(sexp: Sexp) -> (r: Sexp)
    ensures
        r@ == if sexp@.sexpt is Atom {
            truth()
        } else {
            SexpView::nil()
        },
{
    proof {
        if sexp.sexpt is List {
            lemma_view_list(sexp);
        } else {
            lemma_view_atom(sexp);
        }
    }
    match sexp.sexpt {
        SexpT::Atom(_) => truthy(),
        SexpT::List(_) => empty_list(),
    }
}

/// Whether two atoms hold the same thing.
fn same_atom(a: &Atom, b: &Atom) -> (r: bool)
    ensures
        r == (a@ == b@),
{
    match (a, b) {
        (Atom::Symbol(x), Atom::Symbol(y)) => *x == *y,
        (Atom::String(x), Atom::String(y)) => *x == *y,
        (Atom::Integer(x), Atom::Integer(y)) => *x == *y,
        (Atom::Float(x), Atom::Float(y)) => *x == *y,
        _ => false,
    }
}

/// Whether `a` and `b` are the same apart from positions: the same kind of
/// atom with the same contents, or lists of the same length whose items are
/// the same, item by item.
pub fn same(a: &Sexp, b: &Sexp) -> (r: bool)
    ensures
        r == (a@.unplaced() == b@.unplaced()),
    decreases a,
{
    proof {
        if a.sexpt is List {
            lemma_view_list(*a);
            lemma_unplaced_list(a@);
        } else {
            lemma_view_atom(*a);
            lemma_unplaced_atom(a@);
        }
        if b.sexpt is List {
            lemma_view_list(*b);
            lemma_unplaced_list(b@);
        } else {
            lemma_view_atom(*b);
            lemma_unplaced_atom(b@);
        }
    }
    match (&a.sexpt, &b.sexpt) {
        (SexpT::Atom(x), SexpT::Atom(y)) => same_atom(x, y),
        (SexpT::List(v), SexpT::List(w)) => {
            if v.len() != w.len() {
                return false;
            }
            let mut i: usize = 0;
            while i < v.len()
                invariant
                    i <= v.len(),
                    v.len() == w.len(),
                    a.sexpt == SexpT::List(*v),
                    b.sexpt == SexpT::List(*w),
                    a@.sexpt == SexpTView::List(items_view(v@)),
                    b@.sexpt == SexpTView::List(items_view(w@)),
                    a@.unplaced().sexpt is List,
                    b@.unplaced().sexpt is List,
                    a@.unplaced().sexpt->List_0.len() == v.len(),
                    b@.unplaced().sexpt->List_0.len() == w.len(),
                    forall|k: int|
                        0 <= k < v.len() ==> #[trigger] a@.unplaced().sexpt->List_0[k]
                            == v@[k]@.unplaced(),
                    forall|k: int|
                        0 <= k < w.len() ==> #[trigger] b@.unplaced().sexpt->List_0[k]
                            == w@[k]@.unplaced(),
                    forall|k: int| 0 <= k < i ==> v@[k]@.unplaced() == w@[k]@.unplaced(),
                decreases v.len() - i,
            {
                proof {
                    vstd::std_specs::vec::axiom_vec_index_decreases(*v, i as int);
                    assert(decreases_to!(*a => a.sexpt));
                    assert(decreases_to!(a.sexpt => a.sexpt->List_0));
                    assert(decreases_to!(*a => v[i as int]));
                }
                if !same(&v[i], &w[i]) {
                    proof {
                        let k = i as int;
                        assert(a@.unplaced().sexpt->List_0[k] != b@.unplaced().sexpt->List_0[k]);
                    }
                    return false;
                }
                i += 1;
            }
            proof {
                assert(a@.unplaced().sexpt->List_0 =~= b@.unplaced().sexpt->List_0);
            }
            true
        },
        _ => false,
    }
}

/// The symbol `t` where `left` and `right` are the same apart from
/// positions, the empty list where they are not; either at no position.
pub fn eq(left: Sexp, right: Sexp) -> (r: Sexp)
    ensures
        r@ == if left@.unplaced() == right@.unplaced() {
            truth()
        } else {
            SexpView::nil()
        },
{
    if same(&left, &right) {
        truthy()
    } else {
        empty_list()
    }
}

} // verus!

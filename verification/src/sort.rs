//! The caller-facing sort over a listing: by primary key (lexicographic) or
//! by the secondary id, ascending or descending. An unrecognized sort key
//! falls back to sorting by primary key, ascending.

use vstd::prelude::*;
use vstd::string::*;

use crate::polar::{Polar, PolarV};

verus! {

broadcast use vstd::seq_lib::group_to_multiset_ensures, vstd::multiset::group_multiset_axioms;

/// Sort direction.
#[derive(Clone, Copy, PartialEq, Eq, Structural, Debug)]
pub enum SortOrder {
    Asc,
    Desc,
}

/// Lexicographic order on character sequences, by character code.
pub open spec fn lex_le(a: Seq<char>, b: Seq<char>) -> bool
    decreases a.len(),
{
    if a.len() == 0 {
        true
    } else if b.len() == 0 {
        false
    } else if (a[0] as u32) < (b[0] as u32) {
        true
    } else if (a[0] as u32) > (b[0] as u32) {
        false
    } else {
        lex_le(a.drop_first(), b.drop_first())
    }
}

/// Any two character sequences are ordered one way or the other.
pub proof fn lemma_lex_le_total(a: Seq<char>, b: Seq<char>)
    ensures
        lex_le(a, b) || lex_le(b, a),
    decreases a.len(),
{
    if a.len() > 0 && b.len() > 0 && (a[0] as u32) == (b[0] as u32) {
        lemma_lex_le_total(a.drop_first(), b.drop_first());
    }
}

/// The lexicographic order is transitive.
pub proof fn lemma_lex_le_trans(a: Seq<char>, b: Seq<char>, c: Seq<char>)
    requires
        lex_le(a, b),
        lex_le(b, c),
    ensures
        lex_le(a, c),
    decreases a.len(),
{
    if a.len() > 0 && c.len() > 0 {
        if (a[0] as u32) == (b[0] as u32) && (b[0] as u32) == (c[0] as u32) {
            lemma_lex_le_trans(a.drop_first(), b.drop_first(), c.drop_first());
        }
    }
}

/// Order on optional primary keys: a missing key sorts first.
pub open spec fn opt_id_le(a: Option<Seq<char>>, b: Option<Seq<char>>) -> bool {
    match (a, b) {
        (None, _) => true,
        (Some(_), None) => false,
        (Some(x), Some(y)) => lex_le(x, y),
    }
}

/// The effective record order of a sort request: by the secondary id when
/// asked, else by primary key; descending when asked, reversed arguments.
pub open spec fn polar_le(by_secondary: bool, descending: bool, a: PolarV, b: PolarV) -> bool {
    if by_secondary {
        if descending {
            b.polar_id <= a.polar_id
        } else {
            a.polar_id <= b.polar_id
        }
    } else {
        if descending {
            opt_id_le(b.id, a.id)
        } else {
            opt_id_le(a.id, b.id)
        }
    }
}

/// Any two records are ordered one way or the other.
pub proof fn lemma_polar_le_total(by_secondary: bool, descending: bool, a: PolarV, b: PolarV)
    ensures
        polar_le(by_secondary, descending, a, b) || polar_le(by_secondary, descending, b, a),
{
    if !by_secondary {
        match (a.id, b.id) {
            (Some(x), Some(y)) => lemma_lex_le_total(x, y),
            _ => {},
        }
    }
}

/// The record order is transitive.
pub proof fn lemma_polar_le_trans(
    by_secondary: bool,
    descending: bool,
    a: PolarV,
    b: PolarV,
    c: PolarV,
)
    requires
        polar_le(by_secondary, descending, a, b),
        polar_le(by_secondary, descending, b, c),
    ensures
        polar_le(by_secondary, descending, a, c),
{
    if !by_secondary {
        if descending {
            match (c.id, b.id, a.id) {
                (Some(x), Some(y), Some(z)) => lemma_lex_le_trans(x, y, z),
                _ => {},
            }
        } else {
            match (a.id, b.id, c.id) {
                (Some(x), Some(y), Some(z)) => lemma_lex_le_trans(x, y, z),
                _ => {},
            }
        }
    }
}

/// Whether a sort key names the secondary id.
pub open spec fn spec_by_secondary(key: Seq<char>) -> bool {
    key == "_id"@
}

/// Whether a sort request sorts descending: only a recognized key does; an
/// unrecognized key falls back to ascending.
pub open spec fn spec_descending(key: Seq<char>, order: SortOrder) -> bool {
    (key == "_id"@ || key == "id"@) && order == SortOrder::Desc
}

/// Compare two strings for equal content.
fn str_eq(a: &str, b: &str) -> (r: bool)
    ensures
        r == (a@ == b@),
{
    let an = a.unicode_len();
    let bn = b.unicode_len();
    if an != bn {
        return false;
    }
    let mut i: usize = 0;
    while i < an
        invariant
            0 <= i <= an,
            an == a@.len(),
            an == b@.len(),
            forall|j: int| 0 <= j < i ==> a@[j] == b@[j],
        decreases an - i,
    {
        if a.get_char(i) != b.get_char(i) {
            return false;
        }
        i += 1;
    }
    proof {
        assert(a@ =~= b@);
    }
    true
}

/// Compare two strings in the lexicographic order.
fn lex_le_exec(a: &str, b: &str) -> (r: bool)
    ensures
        r == lex_le(a@, b@),
{
    let an = a.unicode_len();
    let bn = b.unicode_len();
    proof {
        assert(a@.skip(0) =~= a@);
        assert(b@.skip(0) =~= b@);
    }
    let mut i: usize = 0;
    while i < an && i < bn
        invariant
            0 <= i <= an,
            0 <= i <= bn,
            an == a@.len(),
            bn == b@.len(),
            lex_le(a@, b@) == lex_le(a@.skip(i as int), b@.skip(i as int)),
        decreases an - i,
    {
        let ca = a.get_char(i) as u32;
        let cb = b.get_char(i) as u32;
        proof {
            assert(a@.skip(i as int)[0] == a@[i as int]);
            assert(b@.skip(i as int)[0] == b@[i as int]);
        }
        if ca < cb {
            return true;
        }
        if ca > cb {
            return false;
        }
        proof {
            assert(a@.skip(i as int).drop_first() =~= a@.skip(i as int + 1));
            assert(b@.skip(i as int).drop_first() =~= b@.skip(i as int + 1));
        }
        i += 1;
    }
    proof {
        if i >= an {
            assert(a@.skip(i as int).len() == 0);
        } else {
            assert(b@.skip(i as int).len() == 0);
            assert(a@.skip(i as int).len() > 0);
        }
    }
    i >= an
}

/// Compare two optional primary keys.
fn opt_id_le_exec(a: &Option<String>, b: &Option<String>) -> (r: bool)
    ensures
        r == opt_id_le(a.deep_view(), b.deep_view()),
{
    match (a, b) {
        (None, _) => true,
        (Some(_), None) => false,
        (Some(x), Some(y)) => lex_le_exec(x.as_str(), y.as_str()),
    }
}

/// Compare two records in the effective record order.
fn polar_le_exec(by_secondary: bool, descending: bool, a: &Polar, b: &Polar) -> (r: bool)
    ensures
        r == polar_le(by_secondary, descending, a@, b@),
{
    if by_secondary {
        if descending {
            b.polar_id <= a.polar_id
        } else {
            a.polar_id <= b.polar_id
        }
    } else {
        if descending {
            opt_id_le_exec(&b.id, &a.id)
        } else {
            opt_id_le_exec(&a.id, &b.id)
        }
    }
}

/// The index of a least record of a nonempty listing.
fn min_index(by_secondary: bool, descending: bool, v: &Vec<Polar>) -> (m: usize)
    requires
        v@.len() > 0,
    ensures
        m < v@.len(),
        forall|j: int|
            0 <= j < v@.len() ==> polar_le(
                by_secondary,
                descending,
                v.deep_view()[m as int],
                v.deep_view()[j],
            ),
{
    let mut m: usize = 0;
    proof {
        lemma_polar_le_total(by_secondary, descending, v.deep_view()[0], v.deep_view()[0]);
    }
    let mut i: usize = 1;
    while i < v.len()
        invariant
            1 <= i <= v@.len(),
            m < i,
            forall|j: int|
                0 <= j < i ==> polar_le(
                    by_secondary,
                    descending,
                    v.deep_view()[m as int],
                    v.deep_view()[j],
                ),
        decreases v@.len() - i,
    {
        if !polar_le_exec(by_secondary, descending, &v[m], &v[i]) {
            proof {
                lemma_polar_le_total(
                    by_secondary,
                    descending,
                    v.deep_view()[m as int],
                    v.deep_view()[i as int],
                );
                assert forall|j: int|
                    0 <= j <= i implies polar_le(
                    by_secondary,
                    descending,
                    v.deep_view()[i as int],
                    v.deep_view()[j],
                ) by {
                    if j < i {
                        lemma_polar_le_trans(
                            by_secondary,
                            descending,
                            v.deep_view()[i as int],
                            v.deep_view()[m as int],
                            v.deep_view()[j],
                        );
                    } else {
                        lemma_polar_le_total(
                            by_secondary,
                            descending,
                            v.deep_view()[i as int],
                            v.deep_view()[i as int],
                        );
                    }
                }
            }
            m = i;
        }
        i += 1;
    }
    m
}

/// Sort a listing as the transport layer does before answering: by the named
/// key and direction; an unrecognized key sorts by primary key ascending.
/// The result holds the same records, in the requested order.
pub fn sort_polars(polars: Vec<Polar>, sort_by: &str, order: SortOrder) -> (r: Vec<Polar>)
    ensures
        r.deep_view().to_multiset() == polars.deep_view().to_multiset(),
        forall|i: int, j: int|
            0 <= i <= j < r.deep_view().len() ==> polar_le(
                spec_by_secondary(sort_by@),
                spec_descending(sort_by@, order),
                r.deep_view()[i],
                r.deep_view()[j],
            ),
{
    let by_secondary = str_eq(sort_by, "_id");
    let recognized = by_secondary || str_eq(sort_by, "id");
    let descending = recognized && order == SortOrder::Desc;
    let ghost orig = polars.deep_view();
    let mut remaining = polars;
    let mut out: Vec<Polar> = Vec::new();
    proof {
        assert(out.deep_view() =~= Seq::<PolarV>::empty());
        assert(out.deep_view().to_multiset().add(remaining.deep_view().to_multiset())
            =~= orig.to_multiset());
    }
    while remaining.len() > 0
        invariant
            out.deep_view().to_multiset().add(remaining.deep_view().to_multiset())
                == orig.to_multiset(),
            forall|i: int, j: int|
                0 <= i <= j < out.deep_view().len() ==> polar_le(
                    by_secondary,
                    descending,
                    out.deep_view()[i],
                    out.deep_view()[j],
                ),
            forall|i: int, j: int|
                0 <= i < out.deep_view().len() && 0 <= j < remaining.deep_view().len()
                    ==> polar_le(
                    by_secondary,
                    descending,
                    out.deep_view()[i],
                    remaining.deep_view()[j],
                ),
        decreases remaining.len(),
    {
        let ghost rem0 = remaining.deep_view();
        let ghost out0 = out.deep_view();
        let m = min_index(by_secondary, descending, &remaining);
        let x = remaining.remove(m);
        proof {
            assert(x@ == rem0[m as int]);
            assert(remaining.deep_view() =~= rem0.remove(m as int));
        }
        out.push(x);
        proof {
            assert(out.deep_view() =~= out0.push(rem0[m as int]));
            assert(out.deep_view().to_multiset().add(remaining.deep_view().to_multiset())
                =~= orig.to_multiset());
            assert(forall|j: int|
                0 <= j < remaining.deep_view().len() ==> remaining.deep_view()[j] == (if j
                    < m as int {
                    rem0[j]
                } else {
                    rem0[j + 1]
                }));
            assert forall|i: int, j: int|
                0 <= i <= j < out.deep_view().len() implies polar_le(
                by_secondary,
                descending,
                out.deep_view()[i],
                out.deep_view()[j],
            ) by {
                if j == out.deep_view().len() - 1 && i < j {
                    assert(polar_le(by_secondary, descending, out0[i], rem0[m as int]));
                }
            }
        }
    }
    proof {
        assert(remaining.deep_view() =~= Seq::<PolarV>::empty());
        assert(out.deep_view().to_multiset().add(remaining.deep_view().to_multiset())
            =~= out.deep_view().to_multiset());
    }
    out
}

} // verus!

//! Naming rules for record files and record ids.
//!
//! A record with primary key `id` is stored in a file named `id.yaml`. When a
//! directory is scanned, only names carrying the document extension are
//! considered, and the id is read back as the part of the name before the
//! first dot.

use vstd::prelude::*;
use vstd::string::*;

verus! {

/// Index of the first `.` in `s`, or `s.len()` if there is none.
pub open spec fn spec_first_dot(s: Seq<char>) -> int
    decreases s.len(),
{
    if s.len() == 0 {
        0
    } else if s[0] == '.' {
        0
    } else {
        1 + spec_first_dot(s.drop_first())
    }
}

/// `spec_first_dot` really is the position of the first dot.
pub proof fn lemma_first_dot(s: Seq<char>)
    ensures
        0 <= spec_first_dot(s) <= s.len(),
        spec_first_dot(s) < s.len() ==> s[spec_first_dot(s)] == '.',
        forall|j: int| 0 <= j < spec_first_dot(s) ==> s[j] != '.',
    decreases s.len(),
{
    if s.len() > 0 && s[0] != '.' {
        lemma_first_dot(s.drop_first());
        assert forall|j: int| 0 <= j < spec_first_dot(s) implies s[j] != '.' by {
            if j > 0 {
                assert(s.drop_first()[j - 1] == s[j]);
            }
        }
    }
}

/// A name that the directory scan accepts: `<something>.yaml`, with at least
/// one character before the suffix.
pub open spec fn is_doc_name(name: Seq<char>) -> bool {
    name.len() > 5 && name.subrange(name.len() - 5, name.len() as int) == ".yaml"@
}

/// The id encoded in a scanned file name: the part before the first dot, for
/// names carrying the document extension.
pub open spec fn doc_stem(name: Seq<char>) -> Option<Seq<char>> {
    if is_doc_name(name) {
        Some(name.subrange(0, spec_first_dot(name)))
    } else {
        None
    }
}

/// The file name under which a record with primary key `id` is stored.
pub open spec fn spec_file_name_for(id: Seq<char>) -> Seq<char> {
    id + ".yaml"@
}

/// Build the file name `<id>.yaml` for a record id.
pub fn file_name_for(id: &str) -> (r: String)
    ensures
        r@ == spec_file_name_for(id@),
{
    String::from_str(id).concat(".yaml")
}

/// Writing a record under `file_name_for(id)` and scanning the name back
/// yields the same id, as long as the id is nonempty and holds no dot.
pub proof fn lemma_file_name_round_trip(id: Seq<char>)
    requires
        id.len() > 0,
        forall|j: int| 0 <= j < id.len() ==> id[j] != '.',
    ensures
        doc_stem(spec_file_name_for(id)) == Some(id),
{
    reveal_strlit(".yaml");
    let name = spec_file_name_for(id);
    assert(name.subrange(name.len() - 5, name.len() as int) =~= ".yaml"@);
    assert(is_doc_name(name));
    lemma_first_dot(name);
    assert(name[id.len() as int] == '.');
    assert(forall|j: int| 0 <= j < id.len() ==> name[j] == id[j] && name[j] != '.');
    assert(spec_first_dot(name) == id.len());
    assert(name.subrange(0, id.len() as int) =~= id);
}

/// Scan a file name: `Some(id)` when the name has the document extension,
/// with `id` the part before the first dot; `None` otherwise.
pub fn doc_stem_of(name: &str) -> (r: Option<String>)
    ensures
        match r {
            Some(s) => doc_stem(name@) == Some(s@),
            None => doc_stem(name@) is None,
        },
{
    proof {
        reveal_strlit(".yaml");
    }
    let n = name.unicode_len();
    if n <= 5 {
        proof {
            assert(!is_doc_name(name@));
        }
        return None;
    }
    let c0 = name.get_char(n - 5);
    let c1 = name.get_char(n - 4);
    let c2 = name.get_char(n - 3);
    let c3 = name.get_char(n - 2);
    let c4 = name.get_char(n - 1);
    proof {
        let nn = name@.len() as int;
        let tail = name@.subrange(nn - 5, nn);
        assert(".yaml"@[0] == '.' && ".yaml"@[1] == 'y' && ".yaml"@[2] == 'a' && ".yaml"@[3]
            == 'm' && ".yaml"@[4] == 'l');
        assert(tail[0] == c0 && tail[1] == c1 && tail[2] == c2 && tail[3] == c3 && tail[4] == c4);
        assert((c0 == '.' && c1 == 'y' && c2 == 'a' && c3 == 'm' && c4 == 'l') ==> tail
            =~= ".yaml"@);
        assert(!(c0 == '.' && c1 == 'y' && c2 == 'a' && c3 == 'm' && c4 == 'l') ==> tail
            != ".yaml"@);
    }
    if !(c0 == '.' && c1 == 'y' && c2 == 'a' && c3 == 'm' && c4 == 'l') {
        return None;
    }
    let mut i: usize = 0;
    while i < n && name.get_char(i) != '.'
        invariant
            0 <= i <= n,
            n == name@.len(),
            forall|j: int| 0 <= j < i ==> name@[j] != '.',
        decreases n - i,
    {
        i += 1;
    }
    proof {
        lemma_first_dot(name@);
        assert(spec_first_dot(name@) == i);
    }
    let stem = name.substring_char(0, i);
    Some(String::from_str(stem))
}

/// Index of the last `/` in `s`, or `-1` if there is none.
pub open spec fn spec_last_slash(s: Seq<char>) -> int
    decreases s.len(),
{
    if s.len() == 0 {
        -1
    } else if s.last() == '/' {
        s.len() - 1
    } else {
        spec_last_slash(s.drop_last())
    }
}

/// `spec_last_slash` really is the position of the last slash.
pub proof fn lemma_last_slash(s: Seq<char>)
    ensures
        -1 <= spec_last_slash(s) < s.len(),
        spec_last_slash(s) >= 0 ==> s[spec_last_slash(s)] == '/',
        forall|j: int| spec_last_slash(s) < j < s.len() ==> s[j] != '/',
    decreases s.len(),
{
    if s.len() > 0 && s.last() != '/' {
        lemma_last_slash(s.drop_last());
        assert forall|j: int| spec_last_slash(s) < j < s.len() implies s[j] != '/' by {
            if j < s.len() - 1 {
                assert(s.drop_last()[j] == s[j]);
            }
        }
    }
}

/// The id derivable from a record label: its last path segment, if that
/// segment is nonempty.
pub open spec fn derived_id(label: Seq<char>) -> Option<Seq<char>> {
    let seg = label.subrange(spec_last_slash(label) + 1, label.len() as int);
    if seg.len() == 0 {
        None
    } else {
        Some(seg)
    }
}

/// Derive a record id from a label: the part after the last `/`, or the whole
/// label when it holds no `/`; `None` when that segment is empty.
pub fn derive_id(label: &str) -> (r: Option<String>)
    ensures
        match r {
            Some(s) => derived_id(label@) == Some(s@),
            None => derived_id(label@) is None,
        },
{
    let n = label.unicode_len();
    let mut i: usize = n;
    while i > 0 && label.get_char(i - 1) != '/'
        invariant
            0 <= i <= n,
            n == label@.len(),
            forall|j: int| i <= j < n ==> label@[j] != '/',
        decreases i,
    {
        i -= 1;
    }
    proof {
        lemma_last_slash(label@);
        assert(spec_last_slash(label@) == i - 1);
    }
    if i == n {
        return None;
    }
    let seg = label.substring_char(i, n);
    Some(String::from_str(seg))
}

} // verus!

//! Filesystem paths, held as their text. The operations that follow the
//! platform's path grammar are those of `std::path::Path`; lexical
//! normalization of an absolute path is this module's own.
use vstd::prelude::*;
use crate::text::{chars_of, extend_chars, string_of};

verus! {

/// The text of `Path::new(base).join(name)`.
pub uninterp spec fn path_join(base: Seq<char>, name: Seq<char>) -> Seq<char>;

/// The text of `Path::new(p).parent()`.
pub uninterp spec fn path_parent(p: Seq<char>) -> Option<Seq<char>>;

/// `Path::join`: `name` appended to `base` with the platform's separator, or
/// `name` itself where it is absolute, as `std` documents. The result depends
/// on the two texts alone; beyond the absolute case, which text it is the
/// contract leaves to `std`.
#[verifier::external_body]
pub(crate) fn join_path(base: &str, name: &str) -> (r: String)
    ensures
        r@ == path_join(base@, name@),
        path_is_absolute(name@) ==> r@ == name@,
{
    std::path::Path::new(base).join(name).to_string_lossy().into_owned()
}

/// `Path::parent`: the path without its last component, `None` for a root or
/// an empty path, as `std` documents. The result depends on the text alone;
/// beyond the empty path, which text it is the contract leaves to `std`.
#[verifier::external_body]
pub(crate) fn parent_path(p: &str) -> (r: Option<String>)
    ensures
        p@.len() == 0 ==> r is None,
        match r {
            Some(q) => path_parent(p@) == Some(q@),
            None => path_parent(p@) == None::<Seq<char>>,
        },
{
    match std::path::Path::new(p).parent() {
        Some(q) => Some(q.to_string_lossy().into_owned()),
        None => None,
    }
}

/// The text of `Path::new(p).strip_prefix(base)`, `None` where `base` is not
/// a prefix of `p` component by component.
pub uninterp spec fn path_strip_prefix(p: Seq<char>, base: Seq<char>) -> Option<Seq<char>>;

/// `Path::new(p).is_absolute()`.
pub uninterp spec fn path_is_absolute(p: Seq<char>) -> bool;

/// `Path::strip_prefix`: the rest of `p` after the components of `base`, or
/// `None` where `base` is no component prefix of `p`. The result depends on
/// the two texts alone; which text it is, the contract leaves to `std`.
#[verifier::external_body]
pub(crate) fn strip_path_prefix(p: &str, base: &str) -> (r: Option<String>)
    ensures
        match r {
            Some(q) => path_strip_prefix(p@, base@) == Some(q@),
            None => path_strip_prefix(p@, base@) == None::<Seq<char>>,
        },
{
    match std::path::Path::new(p).strip_prefix(base) {
        Ok(q) => Some(q.to_string_lossy().into_owned()),
        Err(_) => None,
    }
}

/// `Path::is_absolute`: the path does not depend on the current directory.
/// The result depends on the text alone; which it is, the contract leaves to
/// `std`.
#[verifier::external_body]
pub(crate) fn is_absolute_path(p: &str) -> (r: bool)
    ensures
        r == path_is_absolute(p@),
{
    std::path::Path::new(p).is_absolute()
}


/// The kept components after one more component `c` of a path: an empty
/// component and `.` change nothing, `..` drops the last kept component (if
/// any), any other is kept.
pub open spec fn after_component(kept: Seq<Seq<char>>, c: Seq<char>) -> Seq<Seq<char>> {
    if c.len() == 0 || c == seq!['.'] {
        kept
    } else if c == seq!['.', '.'] {
        if kept.len() > 0 { kept.drop_last() } else { kept }
    } else {
        kept.push(c)
    }
}

/// The kept components of the rest `s` of a path, read left to right, given
/// those kept so far and the component being read.
pub open spec fn kept_components(s: Seq<char>, kept: Seq<Seq<char>>, cur: Seq<char>) -> Seq<Seq<char>>
    decreases s.len(),
{
    if s.len() == 0 {
        after_component(kept, cur)
    } else if s[0] == '/' {
        kept_components(s.drop_first(), after_component(kept, cur), Seq::empty())
    } else {
        kept_components(s.drop_first(), kept, cur.push(s[0]))
    }
}

/// Components written from the root: `/` before each, or `/` alone.
pub open spec fn rooted(cs: Seq<Seq<char>>) -> Seq<char>
    decreases cs.len(),
{
    if cs.len() == 0 {
        seq!['/']
    } else if cs.len() == 1 {
        seq!['/'] + cs[0]
    } else {
        rooted(cs.drop_last()) + seq!['/'] + cs.last()
    }
}

/// An absolute path with `.` and empty components left out and each `..`
/// taking back the component before it, without looking at the disk.
pub open spec fn normalized(p: Seq<char>) -> Seq<char> {
    rooted(kept_components(p, Seq::empty(), Seq::empty()))
}

fn after_component_exec(kept: &mut Vec<Vec<char>>, c: Vec<char>)
    ensures
        final(kept)@.map_values(|x: Vec<char>| x@) == after_component(old(kept)@.map_values(|x: Vec<char>| x@), c@),
{
    let ghost before = kept@.map_values(|x: Vec<char>| x@);
    if c.len() == 0 || (c.len() == 1 && c[0] == '.') {
        proof {
            if c.len() == 1 {
                assert(c@ == seq!['.']);
            }
        }
    } else if c.len() == 2 && c[0] == '.' && c[1] == '.' {
        assert(c@ == seq!['.', '.']);
        if kept.len() > 0 {
            kept.pop();
            assert(kept@.map_values(|x: Vec<char>| x@) == before.drop_last());
        }
    } else {
        assert(c@ != seq!['.']) by {
            if c@ == seq!['.'] {
                assert(c@.len() == 1);
            }
        }
        assert(c@ != seq!['.', '.']) by {
            if c@ == seq!['.', '.'] {
                assert(c@.len() == 2 && c@[0] == '.' && c@[1] == '.');
            }
        }
        let ghost cv = c@;
        kept.push(c);
        assert(kept@.map_values(|x: Vec<char>| x@) == before.push(cv));
    }
}

/// The absolute path `p` with its `.` and empty components left out and each
/// `..` taking back the component before it, without looking at the disk.
pub fn normalize_path(p: &str) -> (r: String)
    ensures
        r@ == normalized(p@),
{
    let s = chars_of(p);
    let mut kept: Vec<Vec<char>> = Vec::new();
    let mut cur: Vec<char> = Vec::new();
    let mut i: usize = 0;
    assert(s@.skip(0) == s@);
    assert(kept@.map_values(|x: Vec<char>| x@) =~= Seq::<Seq<char>>::empty());
    assert(cur@ =~= Seq::<char>::empty());
    while i < s.len()
        invariant
            i <= s@.len(),
            s@ == p@,
            kept_components(s@.skip(i as int), kept@.map_values(|x: Vec<char>| x@), cur@) == kept_components(
                p@,
                Seq::empty(),
                Seq::empty(),
            ),
        decreases s.len() - i,
    {
        let ghost rest = s@.skip(i as int);
        assert(rest.drop_first() == s@.skip(i + 1));
        assert(rest[0] == s@[i as int]);
        if s[i] == '/' {
            let c = cur;
            cur = Vec::new();
            after_component_exec(&mut kept, c);
        } else {
            cur.push(s[i]);
        }
        i = i + 1;
    }
    let c = cur;
    after_component_exec(&mut kept, c);
    let ghost cs = kept@.map_values(|x: Vec<char>| x@);
    assert(cs == kept_components(p@, Seq::empty(), Seq::empty()));
    let mut out: Vec<char> = Vec::new();
    if kept.len() == 0 {
        out.push('/');
        assert(out@ == rooted(cs));
    } else {
        let mut k: usize = 0;
        while k < kept.len()
            invariant
                0 < kept@.len(),
                k <= kept@.len(),
                cs == kept@.map_values(|x: Vec<char>| x@),
                k > 0 ==> out@ == rooted(cs.take(k as int)),
                k == 0 ==> out@.len() == 0,
            decreases kept.len() - k,
        {
            let ghost before = out@;
            out.push('/');
            extend_chars(&mut out, &kept[k]);
            proof {
                let t = cs.take(k + 1);
                assert(t.drop_last() == cs.take(k as int));
                assert(t.last() == kept@[k as int]@);
                if k == 0 {
                    assert(t.len() == 1);
                    assert(out@ == seq!['/'] + t[0]);
                } else {
                    assert(out@ == before + seq!['/'] + t.last());
                }
            }
            k = k + 1;
        }
        assert(cs.take(kept.len() as int) == cs);
    }
    string_of(&out)
}

} // verus!

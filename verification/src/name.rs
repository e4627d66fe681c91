//! Qualified names and multinames.
//!
//! A `QName` pairs a namespace with a local name; a `Multiname` pairs one
//! local name with a set of candidate namespaces, resolved against stored
//! `QName`s at lookup time.  Namespaces and local names are handles into
//! the interning tables of the `Context` that created them, so two handles
//! are equal exactly when the underlying names are equal.

use vstd::prelude::*;

verus! {

/// A fully qualified name: a namespace handle plus a local-name handle.
#[derive(Clone, Copy, PartialEq, Eq, Structural, Debug)]
pub struct QName {
    pub ns: usize,
    pub local: usize,
}

impl QName {
    /// Build a qualified name from a namespace and a local name.
    pub fn new(ns: usize, local: usize) -> (r: QName)
        ensures
            r.ns == ns,
            r.local == local,
    {
        QName { ns, local }
    }
}

/// An ambiguous name: one optional local name plus a set of candidate
/// namespaces, matched against stored qualified names at lookup time.
pub struct Multiname {
    pub ns_set: Vec<usize>,
    pub local: Option<usize>,
}

impl Multiname {
    /// A multiname with a single candidate namespace, as produced when a
    /// qualified name is used where an ambiguous one is expected.
    pub fn from_qname(name: QName) -> (r: Multiname)
        ensures
            r.ns_set@ == seq![name.ns],
            r.local == Some(name.local),
    {
        let mut ns_set: Vec<usize> = Vec::new();
        ns_set.push(name.ns);
        Multiname { ns_set, local: Some(name.local) }
    }

    /// The local name, if the multiname carries one.
    pub fn local_name(&self) -> (r: Option<usize>)
        ensures
            r == self.local,
    {
        self.local
    }
}

/// The reserved prefix that marks a parameterized-type name: `Vector.<`.
pub open spec fn vector_prefix() -> Seq<u8> {
    seq![86u8, 101u8, 99u8, 116u8, 111u8, 114u8, 46u8, 60u8]
}

/// The plain name of the generic container type: `Vector`.
pub open spec fn vector_str() -> Seq<u8> {
    seq![86u8, 101u8, 99u8, 116u8, 111u8, 114u8]
}

/// The URI of the two reserved vector namespaces: `__AS3__.vec`.
pub open spec fn vector_ns_uri() -> Seq<u8> {
    seq![95u8, 95u8, 65u8, 83u8, 51u8, 95u8, 95u8, 46u8, 118u8, 101u8, 99u8]
}

/// Build the `Vector.<` prefix as bytes.
pub fn vector_prefix_vec() -> (r: Vec<u8>)
    ensures
        r@ == vector_prefix(),
{
    let mut r: Vec<u8> = Vec::new();
    r.push(86u8);
    r.push(101u8);
    r.push(99u8);
    r.push(116u8);
    r.push(111u8);
    r.push(114u8);
    r.push(46u8);
    r.push(60u8);
    proof {
        assert(r@ =~= vector_prefix());
    }
    r
}

/// Build the plain `Vector` name as bytes.
pub fn vector_str_vec() -> (r: Vec<u8>)
    ensures
        r@ == vector_str(),
{
    let mut r: Vec<u8> = Vec::new();
    r.push(86u8);
    r.push(101u8);
    r.push(99u8);
    r.push(116u8);
    r.push(111u8);
    r.push(114u8);
    proof {
        assert(r@ =~= vector_str());
    }
    r
}

/// Build the `__AS3__.vec` namespace URI as bytes.
pub fn vector_ns_uri_vec() -> (r: Vec<u8>)
    ensures
        r@ == vector_ns_uri(),
{
    let mut r: Vec<u8> = Vec::new();
    r.push(95u8);
    r.push(95u8);
    r.push(65u8);
    r.push(83u8);
    r.push(51u8);
    r.push(95u8);
    r.push(95u8);
    r.push(46u8);
    r.push(118u8);
    r.push(101u8);
    r.push(99u8);
    proof {
        assert(r@ =~= vector_ns_uri());
    }
    r
}

/// Whether a local name has the literal parameterized-type shape:
/// `Vector.<` + inner + `>`.  Only the prefix and the final byte are
/// inspected; the inner text is not validated.
pub open spec fn is_vector_local_spec(s: Seq<u8>) -> bool {
    s.len() >= 9 && s.subrange(0, 8) == vector_prefix() && s[s.len() - 1] == 62u8
}

/// The inner type name of a parameterized-type name: everything between
/// the 8-byte prefix and the 1-byte suffix.  A single-level strip: for a
/// nested name only the outermost wrapper is removed.
pub open spec fn vector_inner_spec(s: Seq<u8>) -> Seq<u8> {
    s.subrange(8, s.len() - 1)
}

/// Detect the parameterized-type shape on a local name's bytes.
pub fn is_vector_local(s: &Vec<u8>) -> (r: bool)
    ensures
        r == is_vector_local_spec(s@),
{
    if s.len() < 9 {
        return false;
    }
    let p = vector_prefix_vec();
    let mut i: usize = 0;
    while i < 8
        invariant
            i <= 8,
            s@.len() >= 9,
            p@ == vector_prefix(),
            forall|j: int| 0 <= j < i ==> s@[j] == p@[j],
        decreases 8 - i,
    {
        if s[i] != p[i] {
            proof {
                assert(s@.subrange(0, 8)[i as int] == s@[i as int]);
            }
            return false;
        }
        i += 1;
    }
    proof {
        assert(s@.subrange(0, 8) =~= vector_prefix());
    }
    s[s.len() - 1] == 62u8
}

/// Extract the inner type name of a parameterized-type name.
pub fn strip_vector_inner(s: &Vec<u8>) -> (r: Vec<u8>)
    requires
        is_vector_local_spec(s@),
    ensures
        r@ == vector_inner_spec(s@),
{
    crate::util::copy_byte_range(s, 8, s.len() - 1)
}

/// Position of the last `::` separator in a qualified name, or -1.
pub open spec fn rfind_sep(s: Seq<u8>) -> int
    decreases s.len(),
{
    if s.len() < 2 {
        -1
    } else if s[s.len() - 2] == 58u8 && s[s.len() - 1] == 58u8 {
        s.len() - 2
    } else {
        rfind_sep(s.drop_last())
    }
}

/// A found separator lies wholly inside the name.
pub proof fn lemma_rfind_sep_bounds(s: Seq<u8>)
    ensures
        rfind_sep(s) >= 0 ==> rfind_sep(s) + 2 <= s.len(),
        rfind_sep(s) == -1 || rfind_sep(s) >= 0,
    decreases s.len(),
{
    if s.len() < 2 {
    } else if s[s.len() - 2] == 58u8 && s[s.len() - 1] == 58u8 {
    } else {
        lemma_rfind_sep_bounds(s.drop_last());
    }
}

/// Find the last `::` separator in a byte name.
pub fn rfind_sep_vec(s: &Vec<u8>) -> (r: Option<usize>)
    ensures
        rfind_sep(s@) >= 0 ==> r == Some(rfind_sep(s@) as usize),
        rfind_sep(s@) < 0 ==> r is None,
{
    proof {
        assert(s@.take(s@.len() as int) =~= s@);
    }
    let mut i: usize = s.len();
    while i >= 2
        invariant
            i <= s@.len(),
            rfind_sep(s@) == rfind_sep(s@.take(i as int)),
        decreases i,
    {
        if s[i - 2] == 58u8 && s[i - 1] == 58u8 {
            proof {
                assert(s@.take(i as int)[i as int - 2] == s@[i as int - 2]);
                assert(s@.take(i as int)[i as int - 1] == s@[i as int - 1]);
            }
            return Some(i - 2);
        }
        proof {
            assert(s@.take(i as int).drop_last() =~= s@.take(i as int - 1));
            assert(s@.take(i as int)[i as int - 2] == s@[i as int - 2]);
            assert(s@.take(i as int)[i as int - 1] == s@[i as int - 1]);
        }
        i -= 1;
    }
    None
}

} // verus!

//! Directory listings: the names of the entries in a parent container.
use crate::codec::Codec;
use crate::json::{expect_lit, lemma_subrange_split, parse_lit};
use vstd::prelude::*;
use vstd::string::*;

verus! {

/// The deep view of a `Directory`.
pub struct DirectoryV {
    pub children: Seq<Seq<char>>,
}

/// An ordered list of entry names. Nothing keeps the names unique.
#[derive(Clone, Debug, PartialEq, Eq)]
pub struct Directory {
    pub children: Vec<String>,
}

impl DeepView for Directory {
    type V = DirectoryV;

    open spec fn deep_view(&self) -> DirectoryV {
        DirectoryV { children: self.children.deep_view() }
    }
}

/// The wire text of a directory: its entry names under the one key.
pub open spec fn directory_wire(v: DirectoryV) -> Seq<char> {
    "{\"children\":"@ + <Vec<String> as Codec>::wire_of(v.children) + "}"@
}

/// A directory at position `i`.
pub open spec fn parse_directory_at(s: Seq<char>, i: int) -> Option<(DirectoryV, int)> {
    match parse_lit(s, i, "{\"children\":"@) {
        None => None,
        Some(j1) => match <Vec<String> as Codec>::parse_at(s, j1) {
            None => None,
            Some((cs, j2)) => match parse_lit(s, j2, "}"@) {
                None => None,
                Some(j3) => Some((DirectoryV { children: cs }, j3)),
            },
        },
    }
}

impl Codec for Directory {
    open spec fn wire_of(v: DirectoryV) -> Seq<char> {
        directory_wire(v)
    }

    open spec fn parse_at(s: Seq<char>, i: int) -> Option<(DirectoryV, int)> {
        parse_directory_at(s, i)
    }

    proof fn lemma_wire_start(v: DirectoryV) {
        reveal_strlit("{\"children\":");
        assert(directory_wire(v)[0] == '{');
    }

    proof fn lemma_parse_in_bounds(s: Seq<char>, i: int) {
        reveal_strlit("{\"children\":");
        if parse_lit(s, i, "{\"children\":"@) is Some {
            let j1 = parse_lit(s, i, "{\"children\":"@)->Some_0;
            <Vec<String> as Codec>::lemma_parse_in_bounds(s, j1);
        }
    }

    proof fn lemma_parse_of_wire(v: DirectoryV, s: Seq<char>, i: int) {
        reveal_strlit("{\"children\":");
        let l1 = "{\"children\":"@;
        let p1 = <Vec<String> as Codec>::wire_of(v.children);
        let l2 = "}"@;
        let w = directory_wire(v);
        let r1 = p1 + l2;
        assert(w =~= l1 + r1);
        lemma_subrange_split(s, i, l1, r1);
        let j1 = i + l1.len() as int;
        lemma_subrange_split(s, j1, p1, l2);
        <Vec<String> as Codec>::lemma_parse_of_wire(v.children, s, j1);
        let j2 = j1 + p1.len() as int;
        assert(parse_lit(s, j2, l2) == Some(j2 + l2.len() as int));
        assert(j2 + l2.len() == i + w.len());
    }

    fn wire_string(&self) -> (r: String) {
        let mut out = String::from_str("{\"children\":");
        let cs = self.children.wire_string();
        out.append(cs.as_str());
        out.append("}");
        assert(out@ =~= directory_wire(self.deep_view()));
        out
    }

    fn parse_wire(s: &str, n: usize, i: usize) -> (r: Option<(Self, usize)>) {
        let j1 = match expect_lit(s, n, i, "{\"children\":") {
            Some(j) => j,
            None => {
                return None;
            },
        };
        let (cs, j2) = match <Vec<String> as Codec>::parse_wire(s, n, j1) {
            Some(r) => r,
            None => {
                return None;
            },
        };
        let j3 = match expect_lit(s, n, j2, "}") {
            Some(j) => j,
            None => {
                return None;
            },
        };
        Some((Directory { children: cs }, j3))
    }
}

} // verus!

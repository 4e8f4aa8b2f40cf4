//! The serializable capability: a type that can be written to the wire
//! and read back, with the round trip proved once for every such type.
use crate::json::{
    lemma_parse_str_body_bounds, lemma_parse_string_of_wire, lemma_subrange_split, parse_string,
    parse_string_at, push_char, str_string, str_wire,
};
use vstd::prelude::*;
use vstd::string::*;

verus! {

/// A value that can be written to and read from the wire.
///
/// The contract relates everything to two spec functions: `wire_of`, the
/// canonical wire text of a value (as a deep view), and `parse_at`, the
/// spec-level parser. Every implementation proves that parsing the
/// canonical text gives the value back.
pub trait Codec: DeepView + Sized {
    /// The canonical wire text of the value `v`.
    spec fn wire_of(v: Self::V) -> Seq<char>;

    /// The value that the text holds at position `i`, with the position
    /// just after it; `None` when no value starts there.
    spec fn parse_at(s: Seq<char>, i: int) -> Option<(Self::V, int)>;

    /// Wire text is never empty and never starts with a delimiter.
    proof fn lemma_wire_start(v: Self::V)
        ensures
            Self::wire_of(v).len() > 0,
            Self::wire_of(v)[0] != ']',
    ;

    /// A successful parse consumes at least one character and stays
    /// within the text.
    proof fn lemma_parse_in_bounds(s: Seq<char>, i: int)
        requires
            0 <= i <= s.len(),
        ensures
            Self::parse_at(s, i) matches Some(r) ==> i < r.1 <= s.len(),
    ;

    /// Parsing the canonical wire text of `v` gives `v` back.
    proof fn lemma_parse_of_wire(v: Self::V, s: Seq<char>, i: int)
        requires
            0 <= i,
            i + Self::wire_of(v).len() <= s.len(),
            s.subrange(i, i + Self::wire_of(v).len() as int) == Self::wire_of(v),
        ensures
            Self::parse_at(s, i) == Some((v, i + Self::wire_of(v).len() as int)),
    ;

    /// The canonical wire text of `self`.
    fn wire_string(&self) -> (r: String)
        ensures
            r@ == Self::wire_of(self.deep_view()),
    ;

    /// Reads one value from `s` at position `i`; agrees with `parse_at`.
    fn parse_wire(s: &str, n: usize, i: usize) -> (r: Option<(Self, usize)>)
        requires
            n == s@.len(),
            i <= n,
        ensures
            match r {
                Some((v, j)) => Self::parse_at(s@, i as int) == Some((v.deep_view(), j as int))
                    && i < j <= n,
                None => Self::parse_at(s@, i as int) is None,
            },
    ;
}

impl Codec for String {
    open spec fn wire_of(v: Seq<char>) -> Seq<char> {
        str_wire(v)
    }

    open spec fn parse_at(s: Seq<char>, i: int) -> Option<(Seq<char>, int)> {
        parse_string_at(s, i)
    }

    proof fn lemma_wire_start(v: Seq<char>) {
        assert(str_wire(v)[0] == '"');
    }

    proof fn lemma_parse_in_bounds(s: Seq<char>, i: int) {
        if 0 <= i && i < s.len() && s[i] == '"' {
            lemma_parse_str_body_bounds(s, i + 1);
        }
    }

    proof fn lemma_parse_of_wire(v: Seq<char>, s: Seq<char>, i: int) {
        lemma_parse_string_of_wire(v, s, i);
    }

    fn wire_string(&self) -> (r: String) {
        str_string(self.as_str())
    }

    fn parse_wire(s: &str, n: usize, i: usize) -> (r: Option<(Self, usize)>) {
        parse_string(s, n, i)
    }
}

// ---------------------------------------------------------------------
// sequences of values: JSON arrays
// ---------------------------------------------------------------------

/// The elements' wire texts, separated by commas.
pub open spec fn items_wire<T: Codec>(vs: Seq<T::V>) -> Seq<char>
    decreases vs.len(),
{
    if vs.len() == 0 {
        Seq::empty()
    } else if vs.len() == 1 {
        T::wire_of(vs[0])
    } else {
        T::wire_of(vs[0]) + seq![','] + items_wire::<T>(vs.drop_first())
    }
}

/// A whole array on the wire.
pub open spec fn vec_wire<T: Codec>(vs: Seq<T::V>) -> Seq<char> {
    seq!['['] + items_wire::<T>(vs) + seq![']']
}

/// One or more comma-separated elements, then the closing bracket.
pub open spec fn parse_items<T: Codec>(s: Seq<char>, i: int) -> Option<(Seq<T::V>, int)>
    decreases s.len() - i when 0 <= i <= s.len()
{
    match T::parse_at(s, i) {
        None => None,
        Some((v, j0)) => {
            let j = if j0 <= i {
                i + 1
            } else if j0 > s.len() {
                s.len() as int
            } else {
                j0
            };
            if j < s.len() && s[j] == ',' {
                match parse_items::<T>(s, j + 1) {
                    Some((vs, k)) => Some((seq![v] + vs, k)),
                    None => None,
                }
            } else if j < s.len() && s[j] == ']' {
                Some((seq![v], j + 1))
            } else {
                None
            }
        },
    }
}

/// An array at position `i`: empty brackets, or bracketed elements.
pub open spec fn parse_vec_at<T: Codec>(s: Seq<char>, i: int) -> Option<(Seq<T::V>, int)> {
    if 0 <= i && i < s.len() && s[i] == '[' {
        if i + 1 < s.len() && s[i + 1] == ']' {
            Some((Seq::empty(), i + 2))
        } else {
            parse_items::<T>(s, i + 1)
        }
    } else {
        None
    }
}

proof fn lemma_parse_items_bounds<T: Codec>(s: Seq<char>, i: int)
    requires
        0 <= i <= s.len(),
    ensures
        parse_items::<T>(s, i) matches Some(r) ==> i < r.1 <= s.len(),
    decreases s.len() - i,
{
    T::lemma_parse_in_bounds(s, i);
    if T::parse_at(s, i) is Some {
        let (v, j0) = T::parse_at(s, i)->Some_0;
        let j = if j0 <= i {
            i + 1
        } else if j0 > s.len() {
            s.len() as int
        } else {
            j0
        };
        if j < s.len() && s[j] == ',' {
            lemma_parse_items_bounds::<T>(s, j + 1);
        }
    }
}

/// Appending an element extends the comma-separated text on the right.
proof fn lemma_items_wire_snoc<T: Codec>(vs: Seq<T::V>, x: T::V)
    ensures
        items_wire::<T>(vs.push(x)) == if vs.len() == 0 {
            T::wire_of(x)
        } else {
            items_wire::<T>(vs) + seq![','] + T::wire_of(x)
        },
    decreases vs.len(),
{
    if vs.len() == 0 {
        assert(vs.push(x) =~= seq![x]);
        assert(items_wire::<T>(seq![x]) == T::wire_of(seq![x][0]));
    } else {
        lemma_items_wire_snoc::<T>(vs.drop_first(), x);
        assert(vs.push(x).drop_first() =~= vs.drop_first().push(x));
        assert(vs.push(x)[0] == vs[0]);
        if vs.len() == 1 {
            assert(vs.drop_first().len() == 0);
            assert(items_wire::<T>(vs.push(x)) == T::wire_of(vs[0]) + seq![','] + T::wire_of(x));
            assert(items_wire::<T>(vs) == T::wire_of(vs[0]));
        } else {
            assert(items_wire::<T>(vs.push(x)) == T::wire_of(vs[0]) + seq![','] + (items_wire::<T>(
                vs.drop_first(),
            ) + seq![','] + T::wire_of(x)));
            assert(items_wire::<T>(vs) == T::wire_of(vs[0]) + seq![','] + items_wire::<T>(
                vs.drop_first(),
            ));
            assert(T::wire_of(vs[0]) + seq![','] + (items_wire::<T>(vs.drop_first()) + seq![',']
                + T::wire_of(x)) =~= (T::wire_of(vs[0]) + seq![','] + items_wire::<T>(
                vs.drop_first(),
            )) + seq![','] + T::wire_of(x));
        }
    }
}

proof fn lemma_parse_items_of_wire<T: Codec>(vs: Seq<T::V>, s: Seq<char>, i: int)
    requires
        vs.len() >= 1,
        0 <= i,
        i + items_wire::<T>(vs).len() + 1 <= s.len(),
        s.subrange(i, i + items_wire::<T>(vs).len() as int) == items_wire::<T>(vs),
        s[i + items_wire::<T>(vs).len() as int] == ']',
    ensures
        parse_items::<T>(s, i) == Some((vs, i + items_wire::<T>(vs).len() + 1)),
    decreases vs.len(),
{
    let w = items_wire::<T>(vs);
    let w0 = T::wire_of(vs[0]);
    if vs.len() == 1 {
        assert(w == w0);
        T::lemma_parse_of_wire(vs[0], s, i);
        T::lemma_parse_in_bounds(s, i);
        assert(s[i + w0.len()] == ']');
        assert(seq![vs[0]] =~= vs);
    } else {
        let rest = items_wire::<T>(vs.drop_first());
        assert(w == w0 + seq![','] + rest);
        let tail = seq![','] + rest;
        assert(w =~= w0 + tail);
        lemma_subrange_split(s, i, w0, tail);
        T::lemma_parse_of_wire(vs[0], s, i);
        T::lemma_parse_in_bounds(s, i);
        let j = i + w0.len() as int;
        assert(s.subrange(j, j + tail.len() as int)[0] == s[j]);
        assert(s[j] == ',');
        lemma_subrange_split(s, j, seq![','], rest);
        assert(s.subrange(j + 1, j + 1 + rest.len() as int) == rest);
        assert(j + 1 + rest.len() == i + w.len());
        assert(s[j + 1 + rest.len()] == ']');
        lemma_parse_items_of_wire::<T>(vs.drop_first(), s, j + 1);
        assert(seq![vs[0]] + vs.drop_first() =~= vs);
    }
}

impl<T: Codec> Codec for Vec<T> {
    open spec fn wire_of(v: Seq<T::V>) -> Seq<char> {
        vec_wire::<T>(v)
    }

    open spec fn parse_at(s: Seq<char>, i: int) -> Option<(Seq<T::V>, int)> {
        parse_vec_at::<T>(s, i)
    }

    proof fn lemma_wire_start(v: Seq<T::V>) {
        assert(vec_wire::<T>(v)[0] == '[');
    }

    proof fn lemma_parse_in_bounds(s: Seq<char>, i: int) {
        if 0 <= i && i < s.len() && s[i] == '[' {
            if !(i + 1 < s.len() && s[i + 1] == ']') {
                lemma_parse_items_bounds::<T>(s, i + 1);
            }
        }
    }

    proof fn lemma_parse_of_wire(v: Seq<T::V>, s: Seq<char>, i: int) {
        let w = vec_wire::<T>(v);
        assert(s.subrange(i, i + w.len() as int)[0] == s[i]);
        assert(s[i] == '[');
        if v.len() == 0 {
            assert(w =~= "[]"@) by {
                reveal_strlit("[]");
                assert(items_wire::<T>(v) == Seq::<char>::empty());
            }
            assert(s.subrange(i, i + w.len() as int)[1] == s[i + 1]);
            assert(w[1] == ']');
            assert(s[i + 1] == ']');
            assert(parse_vec_at::<T>(s, i) == Some((Seq::<T::V>::empty(), i + 2)));
            assert(v =~= Seq::<T::V>::empty());
        } else {
            let items = items_wire::<T>(v);
            let head = seq!['['];
            let tail = items + seq![']'];
            assert(w =~= head + tail);
            lemma_subrange_split(s, i, head, tail);
            lemma_subrange_split(s, i + 1, items, seq![']']);
            assert(s.subrange(i + 1 + items.len() as int, i + 1 + items.len() + 1)[0] == s[i + 1
                + items.len()]);
            assert(s[i + 1 + items.len()] == ']');
            T::lemma_wire_start(v[0]);
            assert(s.subrange(i + 1, i + 1 + items.len() as int)[0] == s[i + 1]);
            if v.len() == 1 {
                assert(items == T::wire_of(v[0]));
                assert(s[i + 1] == T::wire_of(v[0])[0]);
            } else {
                assert(items == T::wire_of(v[0]) + seq![','] + items_wire::<T>(v.drop_first()));
                assert(items[0] == T::wire_of(v[0])[0]);
                assert(s[i + 1] == T::wire_of(v[0])[0]);
            }
            assert(s[i + 1] != ']');
            lemma_parse_items_of_wire::<T>(v, s, i + 1);
        }
    }

    fn wire_string(&self) -> (r: String) {
        let ghost vs = self.deep_view();
        let mut out = String::new();
        push_char(&mut out, '[');
        let mut k: usize = 0;
        assert(out@ =~= seq!['['] + items_wire::<T>(vs.take(0)));
        while k < self.len()
            invariant
                k <= self.len(),
                vs == self.deep_view(),
                vs.len() == self@.len(),
                out@ == seq!['['] + items_wire::<T>(vs.take(k as int)),
            decreases self.len() - k,
        {
            if k > 0 {
                push_char(&mut out, ',');
            }
            let w = self[k].wire_string();
            out.append(w.as_str());
            proof {
                assert(self@[k as int].deep_view() == vs[k as int]);
                assert(vs.take(k + 1) =~= vs.take(k as int).push(vs[k as int]));
                lemma_items_wire_snoc::<T>(vs.take(k as int), vs[k as int]);
                assert(out@ =~= seq!['['] + items_wire::<T>(vs.take(k + 1)));
            }
            k += 1;
        }
        assert(vs.take(self@.len() as int) =~= vs);
        push_char(&mut out, ']');
        assert(out@ =~= vec_wire::<T>(vs));
        out
    }

    fn parse_wire(s: &str, n: usize, i: usize) -> (r: Option<(Self, usize)>) {
        if !(i < n) || s.get_char(i) != '[' {
            return None;
        }
        if i + 1 < n && s.get_char(i + 1) == ']' {
            let v: Vec<T> = Vec::new();
            assert(v.deep_view() =~= Seq::<T::V>::empty());
            return Some((v, i + 2));
        }
        let mut acc: Vec<T> = Vec::new();
        let mut cur: usize = i + 1;
        proof {
            if parse_items::<T>(s@, i + 1) is Some {
                let (ws, k) = parse_items::<T>(s@, i + 1)->Some_0;
                assert(acc.deep_view() =~= Seq::<T::V>::empty());
                assert(Seq::<T::V>::empty() + ws =~= ws);
            }
        }
        loop
            invariant
                n == s@.len(),
                i < cur <= n,
                s@[i as int] == '[',
                !(i + 1 < n && s@[i + 1] == ']'),
                match parse_items::<T>(s@, cur as int) {
                    Some((ws, k)) => parse_items::<T>(s@, i + 1) == Some(
                        (acc.deep_view() + ws, k),
                    ),
                    None => parse_items::<T>(s@, i + 1) is None,
                },
            decreases n - cur,
        {
            match T::parse_wire(s, n, cur) {
                None => {
                    return None;
                },
                Some((v, j)) => {
                    proof {
                        T::lemma_parse_in_bounds(s@, cur as int);
                    }
                    let ghost accv = acc.deep_view();
                    let ghost dv = v.deep_view();
                    if j < n && s.get_char(j) == ',' {
                        acc.push(v);
                        proof {
                            assert(acc.deep_view() =~= accv.push(dv));
                            if parse_items::<T>(s@, j + 1) is Some {
                                let (ws, k) = parse_items::<T>(s@, j + 1)->Some_0;
                                assert(parse_items::<T>(s@, cur as int) == Some(
                                    (seq![dv] + ws, k),
                                ));
                                assert(accv + (seq![dv] + ws) =~= accv.push(dv) + ws);
                            } else {
                                assert(parse_items::<T>(s@, cur as int) is None);
                            }
                        }
                        cur = j + 1;
                    } else if j < n && s.get_char(j) == ']' {
                        acc.push(v);
                        proof {
                            assert(acc.deep_view() =~= accv.push(dv));
                            assert(parse_items::<T>(s@, cur as int) == Some((seq![dv], j + 1)));
                            assert(accv + seq![dv] =~= accv.push(dv));
                            assert(parse_items::<T>(s@, i + 1) == Some(
                                (acc.deep_view(), j + 1),
                            ));
                            assert(parse_vec_at::<T>(s@, i as int) == Some(
                                (acc.deep_view(), j + 1),
                            ));
                        }
                        return Some((acc, j + 1));
                    } else {
                        assert(parse_items::<T>(s@, cur as int) is None);
                        return None;
                    }
                },
            }
        }
    }
}

// ---------------------------------------------------------------------
// whole documents
// ---------------------------------------------------------------------

/// The value whose wire text is exactly `s`, and nothing more.
pub open spec fn decode_spec<T: Codec>(s: Seq<char>) -> Option<T::V> {
    match T::parse_at(s, 0) {
        Some((v, j)) => if j == s.len() {
            Some(v)
        } else {
            None
        },
        None => None,
    }
}

/// Decoding the canonical wire text of any value gives the value back.
pub proof fn lemma_decode_of_encode<T: Codec>(v: T::V)
    ensures
        decode_spec::<T>(T::wire_of(v)) == Some(v),
{
    let w = T::wire_of(v);
    assert(w.subrange(0, w.len() as int) =~= w);
    T::lemma_parse_of_wire(v, w, 0);
}

} // verus!

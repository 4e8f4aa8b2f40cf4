//! The challenge record: four text fields, two millisecond timestamps,
//! and a completion flag.
//!
//! On the wire the timestamps are bare millisecond counts under the
//! `startedAt` and `endAt` keys.
use crate::codec::Codec;
use crate::json::{
    bool_wire, enc_int, expect_lit, i64_string, is_digit, lemma_dec_digits_bounds,
    lemma_parse_bool_of_wire, lemma_parse_i64_of_enc, lemma_parse_str_body_bounds,
    lemma_parse_string_of_wire, lemma_subrange_split, parse_bool, parse_bool_at, parse_i64,
    parse_i64_at, parse_lit, parse_string, parse_string_at, str_string, str_wire,
};
use crate::Timestamp;
use vstd::prelude::*;
use vstd::string::*;

verus! {

/// The deep view of a `Challenge`.
pub struct ChallengeV {
    pub id: Seq<char>,
    pub title: Seq<char>,
    pub why: Seq<char>,
    pub note: Seq<char>,
    pub start_at_ms: i64,
    pub end_at_ms: i64,
    pub finished: bool,
}

/// A challenge. Whether `end_at_ms` lies after `start_at_ms` is the
/// caller's business: the type does not enforce it.
#[derive(Clone, Debug, PartialEq, Eq)]
pub struct Challenge {
    pub id: String,
    pub title: String,
    pub why: String,
    pub note: String,
    pub start_at_ms: Timestamp,
    pub end_at_ms: Timestamp,
    pub finished: bool,
}

impl DeepView for Challenge {
    type V = ChallengeV;

    open spec fn deep_view(&self) -> ChallengeV {
        ChallengeV {
            id: self.id@,
            title: self.title@,
            why: self.why@,
            note: self.note@,
            start_at_ms: self.start_at_ms.millis,
            end_at_ms: self.end_at_ms.millis,
            finished: self.finished,
        }
    }
}

/// The wire text of a challenge: all seven fields, in declaration order.
pub open spec fn challenge_wire(v: ChallengeV) -> Seq<char> {
    "{\"id\":"@ + str_wire(v.id) + ",\"title\":"@ + str_wire(v.title) + ",\"why\":"@ + str_wire(
        v.why,
    ) + ",\"note\":"@ + str_wire(v.note) + ",\"startedAt\":"@ + enc_int(v.start_at_ms as int)
        + ",\"endAt\":"@ + enc_int(v.end_at_ms as int) + ",\"finished\":"@ + bool_wire(v.finished)
        + "}"@
}

/// A challenge at position `i`: every field under its key, in order.
pub open spec fn parse_challenge_at(s: Seq<char>, i: int) -> Option<(ChallengeV, int)> {
    match parse_lit(s, i, "{\"id\":"@) {
        None => None,
        Some(j1) => match parse_string_at(s, j1) {
            None => None,
            Some((id, j2)) => match parse_lit(s, j2, ",\"title\":"@) {
                None => None,
                Some(j3) => match parse_string_at(s, j3) {
                    None => None,
                    Some((title, j4)) => match parse_lit(s, j4, ",\"why\":"@) {
                        None => None,
                        Some(j5) => match parse_string_at(s, j5) {
                            None => None,
                            Some((why, j6)) => match parse_lit(s, j6, ",\"note\":"@) {
                                None => None,
                                Some(j7) => match parse_string_at(s, j7) {
                                    None => None,
                                    Some((note, j8)) => match parse_lit(
                                        s,
                                        j8,
                                        ",\"startedAt\":"@,
                                    ) {
                                        None => None,
                                        Some(j9) => match parse_i64_at(s, j9) {
                                            None => None,
                                            Some((sa, j10)) => match parse_lit(
                                                s,
                                                j10,
                                                ",\"endAt\":"@,
                                            ) {
                                                None => None,
                                                Some(j11) => match parse_i64_at(s, j11) {
                                                    None => None,
                                                    Some((ea, j12)) => match parse_lit(
                                                        s,
                                                        j12,
                                                        ",\"finished\":"@,
                                                    ) {
                                                        None => None,
                                                        Some(j13) => match parse_bool_at(s, j13) {
                                                            None => None,
                                                            Some((fin, j14)) => match parse_lit(
                                                                s,
                                                                j14,
                                                                "}"@,
                                                            ) {
                                                                None => None,
                                                                Some(j15) => Some(
                                                                    (
                                                                        ChallengeV {
                                                                            id: id,
                                                                            title: title,
                                                                            why: why,
                                                                            note: note,
                                                                            start_at_ms: sa,
                                                                            end_at_ms: ea,
                                                                            finished: fin,
                                                                        },
                                                                        j15,
                                                                    ),
                                                                ),
                                                            },
                                                        },
                                                    },
                                                },
                                            },
                                        },
                                    },
                                },
                            },
                        },
                    },
                },
            },
        },
    }
}

impl Codec for Challenge {
    open spec fn wire_of(v: ChallengeV) -> Seq<char> {
        challenge_wire(v)
    }

    open spec fn parse_at(s: Seq<char>, i: int) -> Option<(ChallengeV, int)> {
        parse_challenge_at(s, i)
    }

    proof fn lemma_wire_start(v: ChallengeV) {
        reveal_strlit("{\"id\":");
        assert(challenge_wire(v)[0] == '{');
    }

    proof fn lemma_parse_in_bounds(s: Seq<char>, i: int) {
        reveal_strlit("{\"id\":");
        if parse_lit(s, i, "{\"id\":"@) is Some {
            let j1 = parse_lit(s, i, "{\"id\":"@)->Some_0;
            if parse_string_at(s, j1) is Some {
                lemma_parse_str_body_bounds(s, j1 + 1);
                let (id, j2) = parse_string_at(s, j1)->Some_0;
                if parse_lit(s, j2, ",\"title\":"@) is Some {
                    let j3 = parse_lit(s, j2, ",\"title\":"@)->Some_0;
                    if parse_string_at(s, j3) is Some {
                        lemma_parse_str_body_bounds(s, j3 + 1);
                        let (t, j4) = parse_string_at(s, j3)->Some_0;
                        if parse_lit(s, j4, ",\"why\":"@) is Some {
                            let j5 = parse_lit(s, j4, ",\"why\":"@)->Some_0;
                            if parse_string_at(s, j5) is Some {
                                lemma_parse_str_body_bounds(s, j5 + 1);
                                let (wy, j6) = parse_string_at(s, j5)->Some_0;
                                if parse_lit(s, j6, ",\"note\":"@) is Some {
                                    let j7 = parse_lit(s, j6, ",\"note\":"@)->Some_0;
                                    if parse_string_at(s, j7) is Some {
                                        lemma_parse_str_body_bounds(s, j7 + 1);
                                        let (nt, j8) = parse_string_at(s, j7)->Some_0;
                                        if parse_lit(s, j8, ",\"startedAt\":"@) is Some {
                                            let j9 = parse_lit(s, j8, ",\"startedAt\":"@)->Some_0;
                                            if parse_i64_at(s, j9) is Some {
                                                lemma_dec_digits_bounds(s, j9, 0);
                                                lemma_dec_digits_bounds(s, j9 + 1, 0);
                                                let (sa, j10) = parse_i64_at(s, j9)->Some_0;
                                                if parse_lit(s, j10, ",\"endAt\":"@) is Some {
                                                    let j11 = parse_lit(
                                                        s,
                                                        j10,
                                                        ",\"endAt\":"@,
                                                    )->Some_0;
                                                    if parse_i64_at(s, j11) is Some {
                                                        lemma_dec_digits_bounds(s, j11, 0);
                                                        lemma_dec_digits_bounds(s, j11 + 1, 0);
                                                    }
                                                }
                                            }
                                        }
                                    }
                                }
                            }
                        }
                    }
                }
            }
        }
    }

    #[verifier::rlimit(100)]
    #[verifier::spinoff_prover]
    proof fn lemma_parse_of_wire(v: ChallengeV, s: Seq<char>, i: int) {
        reveal_strlit("{\"id\":");
        reveal_strlit(",\"title\":");
        reveal_strlit(",\"why\":");
        reveal_strlit(",\"note\":");
        reveal_strlit(",\"startedAt\":");
        reveal_strlit(",\"endAt\":");
        reveal_strlit(",\"finished\":");
        let l1 = "{\"id\":"@;
        let p1 = str_wire(v.id);
        let l2 = ",\"title\":"@;
        let p2 = str_wire(v.title);
        let l3 = ",\"why\":"@;
        let p3 = str_wire(v.why);
        let l4 = ",\"note\":"@;
        let p4 = str_wire(v.note);
        let l5 = ",\"startedAt\":"@;
        let p5 = enc_int(v.start_at_ms as int);
        let l6 = ",\"endAt\":"@;
        let p6 = enc_int(v.end_at_ms as int);
        let l7 = ",\"finished\":"@;
        let p7 = bool_wire(v.finished);
        let l8 = "}"@;
        let w = challenge_wire(v);
        let r14 = l8;
        let r13 = p7 + r14;
        let r12 = l7 + r13;
        let r11 = p6 + r12;
        let r10 = l6 + r11;
        let r9 = p5 + r10;
        let r8 = l5 + r9;
        let r7 = p4 + r8;
        let r6 = l4 + r7;
        let r5 = p3 + r6;
        let r4 = l3 + r5;
        let r3 = p2 + r4;
        let r2 = l2 + r3;
        let r1 = p1 + r2;
        assert(w =~= l1 + r1);
        lemma_subrange_split(s, i, l1, r1);
        let j1 = i + l1.len() as int;
        lemma_subrange_split(s, j1, p1, r2);
        lemma_parse_string_of_wire(v.id, s, j1);
        let j2 = j1 + p1.len() as int;
        lemma_subrange_split(s, j2, l2, r3);
        let j3 = j2 + l2.len() as int;
        lemma_subrange_split(s, j3, p2, r4);
        lemma_parse_string_of_wire(v.title, s, j3);
        let j4 = j3 + p2.len() as int;
        lemma_subrange_split(s, j4, l3, r5);
        let j5 = j4 + l3.len() as int;
        lemma_subrange_split(s, j5, p3, r6);
        lemma_parse_string_of_wire(v.why, s, j5);
        let j6 = j5 + p3.len() as int;
        lemma_subrange_split(s, j6, l4, r7);
        let j7 = j6 + l4.len() as int;
        lemma_subrange_split(s, j7, p4, r8);
        lemma_parse_string_of_wire(v.note, s, j7);
        let j8 = j7 + p4.len() as int;
        lemma_subrange_split(s, j8, l5, r9);
        let j9 = j8 + l5.len() as int;
        lemma_subrange_split(s, j9, p5, r10);
        assert(s.subrange(j9 + p5.len() as int, j9 + p5.len() + r10.len())[0] == s[j9
            + p5.len()]);
        assert(s[j9 + p5.len()] == ',');
        assert(!is_digit(','));
        lemma_parse_i64_of_enc(v.start_at_ms, s, j9);
        let j10 = j9 + p5.len() as int;
        lemma_subrange_split(s, j10, l6, r11);
        let j11 = j10 + l6.len() as int;
        lemma_subrange_split(s, j11, p6, r12);
        assert(s.subrange(j11 + p6.len() as int, j11 + p6.len() + r12.len())[0] == s[j11
            + p6.len()]);
        assert(s[j11 + p6.len()] == ',');
        lemma_parse_i64_of_enc(v.end_at_ms, s, j11);
        let j12 = j11 + p6.len() as int;
        lemma_subrange_split(s, j12, l7, r13);
        let j13 = j12 + l7.len() as int;
        lemma_subrange_split(s, j13, p7, r14);
        lemma_parse_bool_of_wire(v.finished, s, j13);
        let j14 = j13 + p7.len() as int;
        assert(parse_lit(s, j14, l8) == Some(j14 + l8.len() as int));
        assert(j14 + l8.len() == i + w.len());
    }

    fn wire_string(&self) -> (r: String) {
        let mut out = String::from_str("{\"id\":");
        let f1 = str_string(self.id.as_str());
        out.append(f1.as_str());
        out.append(",\"title\":");
        let f2 = str_string(self.title.as_str());
        out.append(f2.as_str());
        out.append(",\"why\":");
        let f3 = str_string(self.why.as_str());
        out.append(f3.as_str());
        out.append(",\"note\":");
        let f4 = str_string(self.note.as_str());
        out.append(f4.as_str());
        out.append(",\"startedAt\":");
        let f5 = i64_string(self.start_at_ms.as_millis());
        out.append(f5.as_str());
        out.append(",\"endAt\":");
        let f6 = i64_string(self.end_at_ms.as_millis());
        out.append(f6.as_str());
        out.append(",\"finished\":");
        if self.finished {
            out.append("true");
        } else {
            out.append("false");
        }
        out.append("}");
        assert(out@ =~= challenge_wire(self.deep_view()));
        out
    }

    fn parse_wire(s: &str, n: usize, i: usize) -> (r: Option<(Self, usize)>) {
        let j1 = match expect_lit(s, n, i, "{\"id\":") {
            Some(j) => j,
            None => {
                return None;
            },
        };
        let (id, j2) = match parse_string(s, n, j1) {
            Some(r) => r,
            None => {
                return None;
            },
        };
        let j3 = match expect_lit(s, n, j2, ",\"title\":") {
            Some(j) => j,
            None => {
                return None;
            },
        };
        let (title, j4) = match parse_string(s, n, j3) {
            Some(r) => r,
            None => {
                return None;
            },
        };
        let j5 = match expect_lit(s, n, j4, ",\"why\":") {
            Some(j) => j,
            None => {
                return None;
            },
        };
        let (why, j6) = match parse_string(s, n, j5) {
            Some(r) => r,
            None => {
                return None;
            },
        };
        let j7 = match expect_lit(s, n, j6, ",\"note\":") {
            Some(j) => j,
            None => {
                return None;
            },
        };
        let (note, j8) = match parse_string(s, n, j7) {
            Some(r) => r,
            None => {
                return None;
            },
        };
        let j9 = match expect_lit(s, n, j8, ",\"startedAt\":") {
            Some(j) => j,
            None => {
                return None;
            },
        };
        let (sa, j10) = match parse_i64(s, n, j9) {
            Some(r) => r,
            None => {
                return None;
            },
        };
        let j11 = match expect_lit(s, n, j10, ",\"endAt\":") {
            Some(j) => j,
            None => {
                return None;
            },
        };
        let (ea, j12) = match parse_i64(s, n, j11) {
            Some(r) => r,
            None => {
                return None;
            },
        };
        let j13 = match expect_lit(s, n, j12, ",\"finished\":") {
            Some(j) => j,
            None => {
                return None;
            },
        };
        let (fin, j14) = match parse_bool(s, n, j13) {
            Some(r) => r,
            None => {
                return None;
            },
        };
        let j15 = match expect_lit(s, n, j14, "}") {
            Some(j) => j,
            None => {
                return None;
            },
        };
        Some(
            (
                Challenge {
                    id,
                    title,
                    why,
                    note,
                    start_at_ms: Timestamp::from_millis(sa),
                    end_at_ms: Timestamp::from_millis(ea),
                    finished: fin,
                },
                j15,
            ),
        )
    }
}

} // verus!

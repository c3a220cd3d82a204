//! Matching a path against a compiled pattern: each literal segment consumes
//! its own character, each placeholder consumes a nonempty span of the path
//! that lies in its type's character class, and the whole path is consumed.
use vstd::prelude::*;

use crate::route::{ParamType, Segment, params_of};

verus! {

pub open spec fn is_digit(c: char) -> bool {
    '0' <= c && c <= '9'
}

/// One or more digits.
pub open spec fn is_int_chars(s: Seq<char>) -> bool {
    s.len() >= 1 && forall|i: int| 0 <= i < s.len() ==> is_digit(#[trigger] s[i])
}

/// Digits with at most one decimal point, ending in a digit.
pub open spec fn float_body_ok(s: Seq<char>) -> bool {
    &&& s.len() >= 1
    &&& is_digit(s[s.len() - 1])
    &&& forall|i: int| 0 <= i < s.len() ==> is_digit(#[trigger] s[i]) || s[i] == '.'
    &&& forall|a: int, b: int| 0 <= a < b < s.len() && s[a] == '.' ==> s[b] != '.'
}

/// An optional sign, then digits with an optional fractional part.
pub open spec fn is_float_chars(s: Seq<char>) -> bool {
    if s.len() >= 1 && (s[0] == '+' || s[0] == '-') {
        float_body_ok(s.skip(1))
    } else {
        float_body_ok(s)
    }
}

/// The span a placeholder of type `t` may consume.
pub open spec fn class_matches(t: ParamType, s: Seq<char>) -> bool {
    match t {
        ParamType::Str => s.len() >= 1,
        ParamType::Int => is_int_chars(s),
        ParamType::Float => is_float_chars(s),
    }
}

/// The segments `segs[si..]` consume exactly `path[pi..]`, the placeholders
/// among them capturing `parts` in order.
pub open spec fn captures_from(
    segs: Seq<Segment>,
    si: int,
    path: Seq<char>,
    pi: int,
    parts: Seq<Seq<char>>,
) -> bool
    decreases segs.len() - si,
{
    if !(0 <= si && si <= segs.len()) {
        false
    } else if si == segs.len() {
        pi == path.len() && parts.len() == 0
    } else {
        match segs[si] {
            Segment::Lit(c) => {
                &&& 0 <= pi < path.len()
                &&& path[pi] == c
                &&& captures_from(segs, si + 1, path, pi + 1, parts)
            },
            Segment::Param(_, t) => {
                &&& parts.len() >= 1
                &&& exists|k: int|
                    {
                        &&& pi < k <= path.len()
                        &&& parts[0] == #[trigger] path.subrange(pi, k)
                        &&& class_matches(t, path.subrange(pi, k))
                        &&& captures_from(segs, si + 1, path, k, parts.drop_first())
                    }
            },
        }
    }
}

/// Some capture lets `segs[si..]` consume exactly `path[pi..]`.
pub open spec fn matches_from(segs: Seq<Segment>, si: int, path: Seq<char>, pi: int) -> bool {
    exists|parts: Seq<Seq<char>>| captures_from(segs, si, path, pi, parts)
}

/// The whole path matches the whole segment list.
pub open spec fn segs_match(segs: Seq<Segment>, path: Seq<char>) -> bool {
    matches_from(segs, 0, path, 0)
}

pub open spec fn parts_view(ps: Seq<String>) -> Seq<Seq<char>> {
    ps.map_values(|s: String| s@)
}

/// A capture has one part per placeholder, and each part lies in the
/// placeholder's character class.
pub proof fn lemma_capture_parts(
    segs: Seq<Segment>,
    si: int,
    path: Seq<char>,
    pi: int,
    parts: Seq<Seq<char>>,
)
    requires
        0 <= si <= segs.len(),
        captures_from(segs, si, path, pi, parts),
    ensures
        parts.len() == params_of(segs.skip(si)).len(),
        forall|x: int|
            0 <= x < parts.len() ==> class_matches(
                params_of(segs.skip(si))[x].1,
                #[trigger] parts[x],
            ),
    decreases segs.len() - si,
{
    if si == segs.len() {
        assert(segs.skip(si) =~= Seq::<Segment>::empty());
    } else {
        assert(segs.skip(si).drop_first() =~= segs.skip(si + 1));
        assert(segs.skip(si)[0] == segs[si]);
        match segs[si] {
            Segment::Lit(_) => {
                lemma_capture_parts(segs, si + 1, path, pi + 1, parts);
            },
            Segment::Param(n, t) => {
                let k = choose|k: int|
                    {
                        &&& pi < k <= path.len()
                        &&& parts[0] == #[trigger] path.subrange(pi, k)
                        &&& class_matches(t, path.subrange(pi, k))
                        &&& captures_from(segs, si + 1, path, k, parts.drop_first())
                    };
                lemma_capture_parts(segs, si + 1, path, k, parts.drop_first());
                assert(params_of(segs.skip(si)) =~= seq![(n@, t)] + params_of(segs.skip(si + 1)));
                assert forall|x: int| 0 <= x < parts.len() implies class_matches(
                    params_of(segs.skip(si))[x].1,
                    #[trigger] parts[x],
                ) by {
                    if x > 0 {
                        assert(parts[x] == parts.drop_first()[x - 1]);
                        assert(params_of(segs.skip(si))[x] == params_of(segs.skip(si + 1))[x - 1]);
                    }
                }
            },
        }
    }
}

/// Whether `path[from..to]` is one or more digits.
fn int_check(path: &str, from: usize, to: usize) -> (r: bool)
    requires
        from <= to <= path@.len(),
    ensures
        r == is_int_chars(path@.subrange(from as int, to as int)),
{
    let ghost sub = path@.subrange(from as int, to as int);
    if to == from {
        return false;
    }
    let mut i = from;
    while i < to
        invariant
            from <= i <= to <= path@.len(),
            sub == path@.subrange(from as int, to as int),
            forall|j: int| from <= j < i ==> is_digit(#[trigger] path@[j]),
        decreases to - i,
    {
        let c = path.get_char(i);
        if !('0' <= c && c <= '9') {
            assert(sub[(i - from) as int] == path@[i as int]);
            return false;
        }
        i += 1;
    }
    assert forall|x: int| 0 <= x < sub.len() implies is_digit(#[trigger] sub[x]) by {
        assert(sub[x] == path@[from + x]);
    }
    true
}

/// Whether `path[from..to]` is digits with at most one decimal point, ending
/// in a digit.
fn float_body_check(path: &str, from: usize, to: usize) -> (r: bool)
    requires
        from <= to <= path@.len(),
    ensures
        r == float_body_ok(path@.subrange(from as int, to as int)),
{
    let ghost sub = path@.subrange(from as int, to as int);
    if to == from {
        return false;
    }
    let last = path.get_char(to - 1);
    if !('0' <= last && last <= '9') {
        assert(sub[sub.len() - 1] == path@[to - 1]);
        return false;
    }
    let mut dot: Option<usize> = None;
    let mut i = from;
    while i < to
        invariant
            from <= i <= to <= path@.len(),
            sub == path@.subrange(from as int, to as int),
            forall|j: int| from <= j < i ==> is_digit(#[trigger] path@[j]) || path@[j] == '.',
            match dot {
                Some(d) => from <= d < i && path@[d as int] == '.' && forall|j: int|
                    from <= j < i && j != d ==> #[trigger] path@[j] != '.',
                None => forall|j: int| from <= j < i ==> #[trigger] path@[j] != '.',
            },
        decreases to - i,
    {
        let c = path.get_char(i);
        if c == '.' {
            match dot {
                Some(d) => {
                    assert(sub[(d - from) as int] == path@[d as int]);
                    assert(sub[(i - from) as int] == path@[i as int]);
                    return false;
                },
                None => {
                    dot = Some(i);
                },
            }
        } else if !('0' <= c && c <= '9') {
            assert(sub[(i - from) as int] == path@[i as int]);
            return false;
        }
        i += 1;
    }
    assert forall|x: int| 0 <= x < sub.len() implies is_digit(#[trigger] sub[x]) || sub[x]
        == '.' by {
        assert(sub[x] == path@[from + x]);
    }
    assert(sub[sub.len() - 1] == path@[to - 1]);
    assert forall|a: int, b: int|
        0 <= a < b < sub.len() && #[trigger] sub[a] == '.' implies #[trigger] sub[b] != '.' by {
        assert(sub[a] == path@[from + a]);
        assert(sub[b] == path@[from + b]);
    }
    true
}

/// Whether `path[from..to]` lies in the character class of `t`.
fn class_check(t: ParamType, path: &str, from: usize, to: usize) -> (r: bool)
    requires
        from <= to <= path@.len(),
    ensures
        r == class_matches(t, path@.subrange(from as int, to as int)),
{
    let ghost sub = path@.subrange(from as int, to as int);
    match t {
        ParamType::Str => to > from,
        ParamType::Int => int_check(path, from, to),
        ParamType::Float => {
            if to == from {
                return false;
            }
            let c = path.get_char(from);
            assert(sub[0] == path@[from as int]);
            if c == '+' || c == '-' {
                let r = float_body_check(path, from + 1, to);
                assert(sub.skip(1) =~= path@.subrange(from + 1, to as int));
                r
            } else {
                let r = float_body_check(path, from, to);
                r
            }
        },
    }
}

/// Match `segs[si..]` against `path[pi..]`, returning the captured parts of
/// some valid capture, or nothing exactly when no capture exists.
fn match_at(segs: &Vec<Segment>, si: usize, path: &str, pi: usize, len: usize) -> (r: Option<
    Vec<String>,
>)
    requires
        si <= segs@.len(),
        pi <= len,
        len == path@.len(),
    ensures
        match r {
            Some(parts) => captures_from(segs@, si as int, path@, pi as int, parts_view(parts@)),
            None => !matches_from(segs@, si as int, path@, pi as int),
        },
    decreases segs@.len() - si,
{
    if si == segs.len() {
        if pi == len {
            let parts: Vec<String> = Vec::new();
            assert(parts_view(parts@) =~= Seq::<Seq<char>>::empty());
            return Some(parts);
        } else {
            proof {
                assert forall|parts: Seq<Seq<char>>| !captures_from(
                    segs@,
                    si as int,
                    path@,
                    pi as int,
                    parts,
                ) by {}
            }
            return None;
        }
    }
    let seg = &segs[si];
    match seg {
        Segment::Lit(c) => {
            if pi < len && path.get_char(pi) == *c {
                match match_at(segs, si + 1, path, pi + 1, len) {
                    Some(parts) => {
                        assert(captures_from(
                            segs@,
                            si as int,
                            path@,
                            pi as int,
                            parts_view(parts@),
                        ));
                        Some(parts)
                    },
                    None => {
                        proof {
                            assert forall|parts: Seq<Seq<char>>| !captures_from(
                                segs@,
                                si as int,
                                path@,
                                pi as int,
                                parts,
                            ) by {
                                if captures_from(segs@, si as int, path@, pi as int, parts) {
                                    assert(captures_from(
                                        segs@,
                                        si + 1,
                                        path@,
                                        pi + 1,
                                        parts,
                                    ));
                                }
                            }
                        }
                        None
                    },
                }
            } else {
                proof {
                    assert forall|parts: Seq<Seq<char>>| !captures_from(
                        segs@,
                        si as int,
                        path@,
                        pi as int,
                        parts,
                    ) by {}
                }
                None
            }
        },
        Segment::Param(_, t) => {
            let t = *t;
            let ghost gt = t;
            let si1 = si + 1;
            let mut end = pi;
            while end < len
                invariant
                    si < segs@.len(),
                    si1 == si + 1,
                    si1 <= segs@.len(),
                    pi <= end <= len,
                    len == path@.len(),
                    gt == t,
                    segs@[si as int] matches Segment::Param(_, t2) && t2 == gt,
                    forall|k2: int|
                        pi < k2 <= end ==> !(class_matches(
                            gt,
                            path@.subrange(pi as int, k2),
                        ) && matches_from(segs@, si + 1, path@, k2)),
                decreases len - end,
            {
                let split = end + 1;
                if class_check(t, path, pi, split) {
                    match match_at(segs, si1, path, split, len) {
                        Some(rest) => {
                            let ghost grest = rest@;
                            let part = String::from_str(path.substring_char(pi, split));
                            let mut parts = rest;
                            parts.insert(0, part);
                            proof {
                                assert(parts@.drop_first() =~= grest);
                                assert(parts_view(parts@).drop_first() =~= parts_view(grest));
                                assert(parts_view(parts@)[0] == path@.subrange(
                                    pi as int,
                                    split as int,
                                ));
                                assert(captures_from(
                                    segs@,
                                    si + 1,
                                    path@,
                                    split as int,
                                    parts_view(parts@).drop_first(),
                                ));
                                assert(captures_from(
                                    segs@,
                                    si as int,
                                    path@,
                                    pi as int,
                                    parts_view(parts@),
                                ));
                            }
                            return Some(parts);
                        },
                        None => {},
                    }
                }
                end = split;
            }
            proof {
                assert forall|parts: Seq<Seq<char>>| !captures_from(
                    segs@,
                    si as int,
                    path@,
                    pi as int,
                    parts,
                ) by {
                    if captures_from(segs@, si as int, path@, pi as int, parts) {
                        let k = choose|k: int|
                            {
                                &&& pi < k <= path@.len()
                                &&& parts[0] == #[trigger] path@.subrange(pi as int, k)
                                &&& class_matches(gt, path@.subrange(pi as int, k))
                                &&& captures_from(segs@, si + 1, path@, k, parts.drop_first())
                            };
                        assert(matches_from(segs@, si + 1, path@, k));
                    }
                }
            }
            None
        },
    }
}

/// Match a whole path against a whole segment list. Returns the parts the
/// placeholders captured exactly when the path matches.
pub fn match_segments(segs: &Vec<Segment>, path: &str) -> (r: Option<Vec<String>>)
    ensures
        match r {
            Some(parts) => captures_from(segs@, 0, path@, 0, parts_view(parts@)),
            None => !segs_match(segs@, path@),
        },
{
    let len = path.unicode_len();
    match_at(segs, 0, path, 0, len)
}

} // verus!

//! Route patterns: a pattern string with typed placeholders `<name:type>` is
//! compiled into a sequence of matcher segments plus an ordered parameter list.
use vstd::prelude::*;

verus! {

/// The HTTP methods a route can be bound to.
#[derive(Clone, Copy, PartialEq, Eq, Hash, Structural, Debug)]
pub enum HttpMethod {
    Get,
    Post,
}

/// The type a placeholder declares for its parameter.
#[derive(Clone, Copy, PartialEq, Eq, Hash, Structural, Debug)]
pub enum ParamType {
    Str,
    Int,
    Float,
}

/// Why a pattern failed to compile.
#[derive(Clone, Copy, PartialEq, Eq, Structural, Debug)]
pub enum CompileError {
    /// A placeholder names a type other than `str`, `int` or `float`.
    UnknownParamType,
    /// Two placeholders in one pattern share a name.
    DuplicateParamName,
}

/// One compiled element of a pattern: a literal character that the path must
/// carry verbatim, or a typed placeholder that captures part of the path.
pub enum Segment {
    Lit(char),
    Param(String, ParamType),
}

pub open spec fn is_alpha(c: char) -> bool {
    ('A' <= c && c <= 'Z') || ('a' <= c && c <= 'z')
}

/// First index at or after `from` whose character is not a letter (or the end).
pub open spec fn alpha_end(p: Seq<char>, from: int) -> int
    decreases p.len() - from,
{
    if 0 <= from && from < p.len() && is_alpha(p[from]) {
        alpha_end(p, from + 1)
    } else {
        from
    }
}

pub open spec fn name_end(p: Seq<char>, i: int) -> int {
    alpha_end(p, i + 1)
}

pub open spec fn type_end(p: Seq<char>, i: int) -> int {
    alpha_end(p, name_end(p, i) + 1)
}

/// A well-shaped placeholder `<name:type>` begins at index `i` of the pattern.
pub open spec fn placeholder_at(p: Seq<char>, i: int) -> bool {
    let j = name_end(p, i);
    let k = type_end(p, i);
    &&& 0 <= i < p.len()
    &&& p[i] == '<'
    &&& i + 1 < j < p.len()
    &&& p[j] == ':'
    &&& j + 1 < k < p.len()
    &&& p[k] == '>'
}

pub open spec fn ph_name(p: Seq<char>, i: int) -> Seq<char> {
    p.subrange(i + 1, name_end(p, i))
}

pub open spec fn ph_token(p: Seq<char>, i: int) -> Seq<char> {
    p.subrange(name_end(p, i) + 1, type_end(p, i))
}

/// The code point of `c` with an upper-case letter folded to lower case.
pub open spec fn lower_code(c: char) -> int {
    if 65 <= c as int && c as int <= 90 {
        c as int + 32
    } else {
        c as int
    }
}

/// `t` equals `lit` up to lower-casing of `t`.
pub open spec fn lower_matches(t: Seq<char>, lit: Seq<char>) -> bool {
    t.len() == lit.len() && forall|i: int| 0 <= i < t.len() ==> lower_code(t[i]) == #[trigger] lit[i] as int
}

/// The parameter type a placeholder's type token names, if any.
pub open spec fn token_type(t: Seq<char>) -> Option<ParamType> {
    if lower_matches(t, "str"@) {
        Some(ParamType::Str)
    } else if lower_matches(t, "int"@) {
        Some(ParamType::Int)
    } else if lower_matches(t, "float"@) {
        Some(ParamType::Float)
    } else {
        None
    }
}

/// The suffix of the pattern starting at `i` compiles exactly to `segs`:
/// each well-shaped placeholder becomes a `Param` segment with its declared
/// name and type, and every other character becomes a `Lit` segment.
pub open spec fn compiles_to_from(p: Seq<char>, i: int, segs: Seq<Segment>) -> bool
    decreases p.len() - i,
{
    if !(0 <= i && i <= p.len()) {
        false
    } else if i == p.len() {
        segs.len() == 0
    } else if placeholder_at(p, i) {
        &&& segs.len() >= 1
        &&& match segs[0] {
            Segment::Param(n, t) => n@ == ph_name(p, i) && token_type(ph_token(p, i)) == Some(t),
            Segment::Lit(_) => false,
        }
        &&& compiles_to_from(p, type_end(p, i) + 1, segs.drop_first())
    } else {
        &&& segs.len() >= 1
        &&& match segs[0] {
            Segment::Lit(c) => c == p[i],
            Segment::Param(_, _) => false,
        }
        &&& compiles_to_from(p, i + 1, segs.drop_first())
    }
}

/// Every placeholder at or after `i` declares a known type.
pub open spec fn pattern_ok_from(p: Seq<char>, i: int) -> bool
    decreases p.len() - i,
{
    if !(0 <= i && i < p.len()) {
        true
    } else if placeholder_at(p, i) {
        &&& token_type(ph_token(p, i)) is Some
        &&& pattern_ok_from(p, type_end(p, i) + 1)
    } else {
        pattern_ok_from(p, i + 1)
    }
}

/// The placeholder names at or after `i`, in declaration order.
pub open spec fn names_from(p: Seq<char>, i: int) -> Seq<Seq<char>>
    decreases p.len() - i,
{
    if !(0 <= i && i < p.len()) {
        Seq::empty()
    } else if placeholder_at(p, i) {
        seq![ph_name(p, i)] + names_from(p, type_end(p, i) + 1)
    } else {
        names_from(p, i + 1)
    }
}

pub open spec fn pattern_ok(p: Seq<char>) -> bool {
    pattern_ok_from(p, 0)
}

pub open spec fn pattern_compiles_to(p: Seq<char>, segs: Seq<Segment>) -> bool {
    compiles_to_from(p, 0, segs)
}

pub open spec fn pattern_names(p: Seq<char>) -> Seq<Seq<char>> {
    names_from(p, 0)
}

pub open spec fn distinct_names(ns: Seq<Seq<char>>) -> bool {
    forall|a: int, b: int| 0 <= a < b < ns.len() ==> ns[a] != ns[b]
}

/// The (name, type) pairs of the placeholders among `segs`, in order.
pub open spec fn params_of(segs: Seq<Segment>) -> Seq<(Seq<char>, ParamType)>
    decreases segs.len(),
{
    if segs.len() == 0 {
        Seq::empty()
    } else {
        match segs[0] {
            Segment::Lit(_) => params_of(segs.drop_first()),
            Segment::Param(n, t) => seq![(n@, t)] + params_of(segs.drop_first()),
        }
    }
}

pub open spec fn params_view(ps: Seq<(String, ParamType)>) -> Seq<(Seq<char>, ParamType)> {
    ps.map_values(|q: (String, ParamType)| (q.0@, q.1))
}

pub open spec fn param_names(ps: Seq<(String, ParamType)>) -> Seq<Seq<char>> {
    ps.map_values(|q: (String, ParamType)| q.0@)
}

/// A compiled route: the method and pattern it was declared with, the matcher
/// segments the pattern compiled to, and the ordered parameter list.
pub struct Route {
    pub method: HttpMethod,
    pub pattern: String,
    pub segments: Vec<Segment>,
    pub params: Vec<(String, ParamType)>,
}

impl Route {
    /// The segments and parameter list belong to the pattern.
    pub open spec fn wf(&self) -> bool {
        &&& pattern_ok(self.pattern@)
        &&& distinct_names(pattern_names(self.pattern@))
        &&& pattern_compiles_to(self.pattern@, self.segments@)
        &&& params_view(self.params@) == params_of(self.segments@)
        &&& param_names(self.params@) == pattern_names(self.pattern@)
    }

    /// Compile `endpoint` for `method`. Fails exactly when a placeholder names
    /// an unknown type, or, failing that, when two placeholders share a name.
    pub fn new(endpoint: &String, method: HttpMethod) -> (r: Result<Route, CompileError>)
        ensures
            match r {
                Ok(route) => {
                    &&& route.wf()
                    &&& route.method == method
                    &&& route.pattern@ == endpoint@
                    &&& pattern_ok(endpoint@)
                    &&& distinct_names(pattern_names(endpoint@))
                },
                Err(CompileError::UnknownParamType) => !pattern_ok(endpoint@),
                Err(CompileError::DuplicateParamName) => pattern_ok(endpoint@)
                    && !distinct_names(pattern_names(endpoint@)),
            },
    {
        let len = endpoint.as_str().unicode_len();
        match compile_from(endpoint.as_str(), 0, len) {
            Err(e) => Err(e),
            Ok((segments, params)) => {
                if distinct_param_names(&params) {
                    Ok(Route { method, pattern: endpoint.clone(), segments, params })
                } else {
                    Err(CompileError::DuplicateParamName)
                }
            },
        }
    }
}

/// First index at or after `from` in `p` whose character is not a letter.
fn alpha_run(p: &str, from: usize, len: usize) -> (r: usize)
    requires
        from <= len,
        len == p@.len(),
    ensures
        r == alpha_end(p@, from as int),
        from <= r <= len,
{
    let mut i = from;
    while i < len
        invariant
            from <= i <= len,
            len == p@.len(),
            alpha_end(p@, from as int) == alpha_end(p@, i as int),
        decreases len - i,
    {
        let c = p.get_char(i);
        if !(('A' <= c && c <= 'Z') || ('a' <= c && c <= 'z')) {
            return i;
        }
        i += 1;
    }
    i
}

/// The lower-cased code point of `c`.
fn lower_of(c: char) -> (r: u32)
    ensures
        r as int == lower_code(c),
{
    let u = c as u32;
    if 65 <= u && u <= 90 {
        u + 32
    } else {
        u
    }
}

/// The parameter type named by the token `p[from..to]`, folded to lower case.
fn check_token(p: &str, from: usize, to: usize, len: usize) -> (r: Option<ParamType>)
    requires
        from <= to <= len,
        len == p@.len(),
    ensures
        r == token_type(p@.subrange(from as int, to as int)),
{
    proof {
        reveal_strlit("str");
        reveal_strlit("int");
        reveal_strlit("float");
        assert("str"@.len() == 3 && "str"@[0] == 's' && "str"@[1] == 't' && "str"@[2] == 'r');
        assert("int"@.len() == 3 && "int"@[0] == 'i' && "int"@[1] == 'n' && "int"@[2] == 't');
        assert("float"@.len() == 5 && "float"@[0] == 'f' && "float"@[1] == 'l' && "float"@[2]
            == 'o' && "float"@[3] == 'a' && "float"@[4] == 't');
    }
    let ghost tok = p@.subrange(from as int, to as int);
    if to - from == 3 {
        let c0 = lower_of(p.get_char(from));
        let c1 = lower_of(p.get_char(from + 1));
        let c2 = lower_of(p.get_char(from + 2));
        proof {
            assert(tok[0] == p@[from as int]);
            assert(tok[1] == p@[from as int + 1]);
            assert(tok[2] == p@[from as int + 2]);
            assert(c0 as int == lower_code(tok[0]));
            assert(c1 as int == lower_code(tok[1]));
            assert(c2 as int == lower_code(tok[2]));
        }
        if c0 == 115 && c1 == 116 && c2 == 114 {
            assert(lower_matches(tok, "str"@));
            Some(ParamType::Str)
        } else if c0 == 105 && c1 == 110 && c2 == 116 {
            assert(!lower_matches(tok, "str"@));
            assert(lower_matches(tok, "int"@));
            Some(ParamType::Int)
        } else {
            assert(!lower_matches(tok, "str"@));
            assert(!lower_matches(tok, "int"@));
            assert(!lower_matches(tok, "float"@));
            None
        }
    } else if to - from == 5 {
        let c0 = lower_of(p.get_char(from));
        let c1 = lower_of(p.get_char(from + 1));
        let c2 = lower_of(p.get_char(from + 2));
        let c3 = lower_of(p.get_char(from + 3));
        let c4 = lower_of(p.get_char(from + 4));
        proof {
            assert(tok[0] == p@[from as int]);
            assert(tok[1] == p@[from as int + 1]);
            assert(tok[2] == p@[from as int + 2]);
            assert(tok[3] == p@[from as int + 3]);
            assert(tok[4] == p@[from as int + 4]);
            assert(c0 as int == lower_code(tok[0]));
            assert(c1 as int == lower_code(tok[1]));
            assert(c2 as int == lower_code(tok[2]));
            assert(c3 as int == lower_code(tok[3]));
            assert(c4 as int == lower_code(tok[4]));
        }
        if c0 == 102 && c1 == 108 && c2 == 111 && c3 == 97 && c4 == 116 {
            assert(lower_matches(tok, "float"@));
            Some(ParamType::Float)
        } else {
            assert(!lower_matches(tok, "float"@));
            None
        }
    } else {
        assert(!lower_matches(tok, "str"@));
        assert(!lower_matches(tok, "int"@));
        assert(!lower_matches(tok, "float"@));
        None
    }
}

/// Locate a well-shaped placeholder starting at `i`, returning the indices of
/// its `:` and `>` characters.
fn placeholder_probe(p: &str, i: usize, len: usize) -> (r: Option<(usize, usize)>)
    requires
        i < len,
        len == p@.len(),
    ensures
        match r {
            Some((j, k)) => {
                &&& placeholder_at(p@, i as int)
                &&& j == name_end(p@, i as int)
                &&& k == type_end(p@, i as int)
            },
            None => !placeholder_at(p@, i as int),
        },
{
    if p.get_char(i) != '<' {
        return None;
    }
    let j = alpha_run(p, i + 1, len);
    if !(j > i + 1 && j < len) {
        return None;
    }
    if p.get_char(j) != ':' {
        return None;
    }
    let k = alpha_run(p, j + 1, len);
    if !(k > j + 1 && k < len) {
        return None;
    }
    if p.get_char(k) != '>' {
        return None;
    }
    Some((j, k))
}

/// Compile the pattern suffix `p[i..]` into segments and its parameter list.
fn compile_from(p: &str, i: usize, len: usize) -> (r: Result<
    (Vec<Segment>, Vec<(String, ParamType)>),
    CompileError,
>)
    requires
        i <= len,
        len == p@.len(),
    ensures
        match r {
            Ok(sp) => {
                &&& pattern_ok_from(p@, i as int)
                &&& compiles_to_from(p@, i as int, sp.0@)
                &&& params_view(sp.1@) == params_of(sp.0@)
                &&& param_names(sp.1@) == names_from(p@, i as int)
            },
            Err(e) => e == CompileError::UnknownParamType && !pattern_ok_from(p@, i as int),
        },
    decreases len - i,
{
    if i == len {
        let segs: Vec<Segment> = Vec::new();
        let params: Vec<(String, ParamType)> = Vec::new();
        assert(params_view(params@) =~= params_of(segs@));
        assert(param_names(params@) =~= names_from(p@, i as int));
        return Ok((segs, params));
    }
    match placeholder_probe(p, i, len) {
        Some((j, k)) => {
            match check_token(p, j + 1, k, len) {
                Some(t) => {
                    match compile_from(p, k + 1, len) {
                        Ok((mut segs, mut params)) => {
                            let ghost old_segs = segs@;
                            let ghost old_params = params@;
                            let name = String::from_str(p.substring_char(i + 1, j));
                            let seg = Segment::Param(name.clone(), t);
                            segs.insert(0, seg);
                            params.insert(0, (name, t));
                            proof {
                                assert(segs@.drop_first() =~= old_segs);
                                assert(params@.drop_first() =~= old_params);
                                assert(segs@[0] == seg);
                                assert(compiles_to_from(p@, i as int, segs@));
                                assert(params_view(params@) =~= seq![(name@, t)] + params_view(
                                    old_params,
                                ));
                                assert(params_of(segs@) =~= seq![(name@, t)] + params_of(old_segs));
                                assert(param_names(params@) =~= seq![name@] + param_names(
                                    old_params,
                                ));
                                assert(param_names(params@) =~= names_from(p@, i as int));
                            }
                            Ok((segs, params))
                        },
                        Err(e) => Err(e),
                    }
                },
                None => Err(CompileError::UnknownParamType),
            }
        },
        None => {
            let c = p.get_char(i);
            match compile_from(p, i + 1, len) {
                Ok((mut segs, params)) => {
                    let ghost old_segs = segs@;
                    segs.insert(0, Segment::Lit(c));
                    proof {
                        assert(segs@.drop_first() =~= old_segs);
                        assert(segs@[0] == Segment::Lit(c));
                        assert(compiles_to_from(p@, i as int, segs@));
                        assert(params_of(segs@) == params_of(old_segs));
                        assert(param_names(params@) =~= names_from(p@, i as int));
                    }
                    Ok((segs, params))
                },
                Err(e) => Err(e),
            }
        },
    }
}

/// Compare two string slices character by character.
pub fn str_eq(a: &str, b: &str) -> (r: bool)
    ensures
        r == (a@ == b@),
{
    let la = a.unicode_len();
    let lb = b.unicode_len();
    if la != lb {
        return false;
    }
    let mut i: usize = 0;
    while i < la
        invariant
            0 <= i <= la,
            la == a@.len(),
            la == b@.len(),
            forall|j: int| 0 <= j < i ==> a@[j] == b@[j],
        decreases la - i,
    {
        if a.get_char(i) != b.get_char(i) {
            return false;
        }
        i += 1;
    }
    proof {
        assert(a@ =~= b@);
    }
    true
}

/// No two parameters in `ps` share a name.
fn distinct_param_names(ps: &Vec<(String, ParamType)>) -> (r: bool)
    ensures
        r == distinct_names(param_names(ps@)),
{
    let n = ps.len();
    let mut a: usize = 0;
    while a < n
        invariant
            0 <= a <= n,
            n == ps@.len(),
            forall|x: int, y: int| 0 <= x < y < n && x < a ==> param_names(ps@)[x] != param_names(ps@)[y],
        decreases n - a,
    {
        let mut b = a + 1;
        while b < n
            invariant
                a < n,
                n == ps@.len(),
                a + 1 <= b,
                forall|y: int| a < y < b ==> param_names(ps@)[a as int] != param_names(ps@)[y],
            decreases n - b,
        {
            if str_eq(ps[a].0.as_str(), ps[b].0.as_str()) {
                assert(param_names(ps@)[a as int] == param_names(ps@)[b as int]);
                return false;
            }
            b += 1;
        }
        a += 1;
    }
    true
}

} // verus!

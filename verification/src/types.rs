//! Type grammar.
//!
//! A type is either one of the keywords `string`, `int`, `bool`, `null` —
//! matched exactly, with no surrounding whitespace — or a parenthesized,
//! comma-separated list of those keywords, with whitespace permitted
//! around commas and parentheses.  Tuple elements are parsed through the
//! keyword form only: a tuple may not contain another tuple, so nesting is
//! a grammar error, not merely a depth limit.

use vstd::prelude::*;
use crate::diagnostics::{ExpectedToken, ParseFault};
use crate::lexical::{word_end, lemma_word_end, scan_word_end, ws_end, lemma_ws_end, scan_ws_end};
use crate::text::{match_at, check_match_at};
use crate::diagnostics::FaultView;

verus! {

/// A type expression of the scripting language.
#[derive(Debug, PartialEq, Eq)]
pub enum DeaconType {
    /// A UTF-8 encoded growable string.
    String,
    /// A 64-bit signed integer.
    Int,
    /// A Boolean value.
    Bool,
    /// The `null` value.
    Null,
    /// A tuple of scalar types.
    Tuple(Vec<DeaconType>),
}

/// The mathematical content of a [`DeaconType`].
pub enum TypeView {
    Str,
    Int,
    Bool,
    Null,
    Tuple(Seq<TypeView>),
}

/// A scalar type: any type other than a tuple.
pub open spec fn is_scalar(t: DeaconType) -> bool {
    !(t is Tuple)
}

/// Well-formed type: a tuple holds scalar elements only.
pub open spec fn type_wf(t: DeaconType) -> bool {
    match t {
        DeaconType::Tuple(elems) => forall|k: int|
            0 <= k < elems@.len() ==> is_scalar(#[trigger] elems@[k]),
        _ => true,
    }
}

/// View of a scalar type; a nested tuple, excluded by [`type_wf`], is
/// mapped to an arbitrary scalar.
pub open spec fn scalar_view(t: DeaconType) -> TypeView {
    match t {
        DeaconType::String => TypeView::Str,
        DeaconType::Int => TypeView::Int,
        DeaconType::Bool => TypeView::Bool,
        DeaconType::Null => TypeView::Null,
        DeaconType::Tuple(_) => TypeView::Null,
    }
}

/// Views of a sequence of scalar types.
pub open spec fn scalar_views(elems: Seq<DeaconType>) -> Seq<TypeView> {
    elems.map(|k: int, t: DeaconType| scalar_view(t))
}

/// View of a type expression.
pub open spec fn type_view(t: DeaconType) -> TypeView {
    match t {
        DeaconType::Tuple(elems) => TypeView::Tuple(scalar_views(elems@)),
        _ => scalar_view(t),
    }
}

/// The scalar type a keyword denotes, under exact match.
pub open spec fn keyword_of(s: Seq<char>) -> Option<TypeView> {
    if s == "string"@ {
        Some(TypeView::Str)
    } else if s == "int"@ {
        Some(TypeView::Int)
    } else if s == "bool"@ {
        Some(TypeView::Bool)
    } else if s == "null"@ {
        Some(TypeView::Null)
    } else {
        None
    }
}

/// Parse the non-empty element list of a tuple type, starting at `i`
/// (just after the opening parenthesis or a comma).  Yields the element
/// views and the position just past the closing parenthesis.
pub open spec fn tuple_elem_list(s: Seq<char>, i: int) -> Result<(Seq<TypeView>, int), FaultView>
    decreases s.len() - i + 1,
    via tuple_elem_list_decreases
{
    if i < 0 || i > s.len() {
        Err(FaultView { offset: i, expected: ExpectedToken::TypeKeyword })
    } else {
        let a = ws_end(s, i);
        let j = word_end(s, a);
        if j == s.len() {
            // The keyword would touch the end of the text: whether it is
            // complete cannot be decided, so the fault sits at the end.
            Err(FaultView { offset: s.len() as int, expected: ExpectedToken::TypeKeyword })
        } else if j == a {
            Err(FaultView { offset: a, expected: ExpectedToken::TypeKeyword })
        } else {
            match keyword_of(s.subrange(a, j)) {
                None => Err(FaultView { offset: a, expected: ExpectedToken::TypeKeyword }),
                Some(k) => {
                    let b = ws_end(s, j);
                    if b < s.len() && s[b] == ',' {
                        match tuple_elem_list(s, b + 1) {
                            Ok((rest, end)) => Ok((seq![k] + rest, end)),
                            Err(f) => Err(f),
                        }
                    } else if b < s.len() && s[b] == ')' {
                        Ok((seq![k], b + 1))
                    } else {
                        Err(FaultView { offset: b, expected: ExpectedToken::Char(')') })
                    }
                },
            }
        }
    }
}

#[via_fn]
proof fn tuple_elem_list_decreases(s: Seq<char>, i: int) {
    if 0 <= i <= s.len() {
        lemma_ws_end(s, i);
        let a = ws_end(s, i);
        lemma_word_end(s, a);
        let j = word_end(s, a);
        if j != a {
            lemma_ws_end(s, j);
        }
    }
}

/// Parse the element list of a tuple type including the empty list, which
/// is recognised only as an immediate closing parenthesis.
pub open spec fn tuple_elems(s: Seq<char>, i: int) -> Result<(Seq<TypeView>, int), FaultView> {
    if 0 <= i < s.len() && s[i] == ')' {
        Ok((Seq::empty(), i + 1))
    } else {
        tuple_elem_list(s, i)
    }
}

/// On success the element list ends after `i` and within the text.
pub proof fn lemma_tuple_elem_list_bounds(s: Seq<char>, i: int)
    requires
        0 <= i <= s.len(),
    ensures
        tuple_elem_list(s, i) matches Ok(p) ==> i < p.1 <= s.len(),
    decreases s.len() - i + 1,
{
    lemma_ws_end(s, i);
    let a = ws_end(s, i);
    lemma_word_end(s, a);
    let j = word_end(s, a);
    if j != s.len() && j != a && keyword_of(s.subrange(a, j)) is Some {
        lemma_ws_end(s, j);
        let b = ws_end(s, j);
        if b < s.len() && s[b] == ',' {
            lemma_tuple_elem_list_bounds(s, b + 1);
        }
    }
}

/// A fault of the element list is positioned within the text.
pub proof fn lemma_tuple_elem_list_fault_bounds(s: Seq<char>, i: int)
    requires
        0 <= i <= s.len(),
    ensures
        tuple_elem_list(s, i) matches Err(f) ==> 0 <= f.offset <= s.len(),
    decreases s.len() - i + 1,
{
    lemma_ws_end(s, i);
    let a = ws_end(s, i);
    lemma_word_end(s, a);
    let j = word_end(s, a);
    if j != s.len() && j != a && keyword_of(s.subrange(a, j)) is Some {
        lemma_ws_end(s, j);
        let b = ws_end(s, j);
        if b < s.len() && s[b] == ',' {
            lemma_tuple_elem_list_fault_bounds(s, b + 1);
        }
    }
}

/// The result of parsing a type that starts at position `i` of a larger
/// text: a keyword that ends before the end of the text, or a
/// parenthesized tuple.  A fault positioned at the very end of the text
/// means the text ended where more characters could still complete the
/// type.
pub open spec fn type_at(s: Seq<char>, i: int) -> Result<(TypeView, int), FaultView>
    recommends
        0 <= i <= s.len(),
{
    let j = word_end(s, i);
    if j > i {
        if j == s.len() {
            Err(FaultView { offset: s.len() as int, expected: ExpectedToken::TypeKeyword })
        } else {
            match keyword_of(s.subrange(i, j)) {
                Some(k) => Ok((k, j)),
                None => Err(FaultView { offset: i, expected: ExpectedToken::TypeKeyword }),
            }
        }
    } else if 0 <= i && i < s.len() && s[i] == '(' {
        match tuple_elems(s, i + 1) {
            Ok(p) => Ok((TypeView::Tuple(p.0), p.1)),
            Err(f) => Err(f),
        }
    } else {
        Err(FaultView { offset: i, expected: ExpectedToken::TypeKeyword })
    }
}

/// On success the type ends after `i` and within the text.
pub proof fn lemma_type_at_bounds(s: Seq<char>, i: int)
    requires
        0 <= i <= s.len(),
    ensures
        type_at(s, i) matches Ok(p) ==> i < p.1 <= s.len(),
{
    lemma_word_end(s, i);
    let j = word_end(s, i);
    if j == i && i < s.len() && s[i] == '(' {
        if !(i + 1 < s.len() && s[i + 1] == ')') {
            lemma_tuple_elem_list_bounds(s, i + 1);
        }
    }
}

/// A fault of the type parse is positioned within the text.
pub proof fn lemma_type_at_fault_bounds(s: Seq<char>, i: int)
    requires
        0 <= i <= s.len(),
    ensures
        type_at(s, i) matches Err(f) ==> 0 <= f.offset <= s.len(),
{
    lemma_word_end(s, i);
    let j = word_end(s, i);
    if j == i && i < s.len() && s[i] == '(' {
        if !(i + 1 < s.len() && s[i + 1] == ')') {
            lemma_tuple_elem_list_fault_bounds(s, i + 1);
        }
    }
}

/// Parse the type starting at position `i` of the input.
pub(crate) fn parse_type_at(input: &str, i: usize) -> (r: Result<(DeaconType, usize), ParseFault>)
    requires
        i <= input@.len(),
    ensures
        match type_at(input@, i as int) {
            Ok(p) => r matches Ok(q) && type_view(q.0) == p.0 && type_wf(q.0)
                && q.1 as int == p.1 && q.1 <= input@.len(),
            Err(ff) => r matches Err(f) && f@.offset == ff.offset && f@.expected == ff.expected,
        },
{
    let n: usize = input.unicode_len();
    let j: usize = scan_word_end(input, i);
    proof {
        lemma_word_end(input@, i as int);
    }
    if j > i {
        if j == n {
            return Err(ParseFault { offset: n, expected: ExpectedToken::TypeKeyword });
        }
        match keyword_at(input, i, j) {
            Some(t) => {
                return Ok((t, j));
            },
            None => {
                return Err(ParseFault { offset: i, expected: ExpectedToken::TypeKeyword });
            },
        }
    }
    if i < n && input.get_char(i) == '(' {
        if i + 1 < n && input.get_char(i + 1) == ')' {
            let empty: Vec<DeaconType> = Vec::new();
            proof {
                assert(scalar_views(empty@) =~= Seq::<TypeView>::empty());
            }
            return Ok((DeaconType::Tuple(empty), i + 2));
        }
        match parse_tuple_elem_list(input, i + 1) {
            Ok((v, e)) => {
                return Ok((DeaconType::Tuple(v), e));
            },
            Err(f) => {
                return Err(f);
            },
        }
    }
    Err(ParseFault { offset: i, expected: ExpectedToken::TypeKeyword })
}

/// The result of parsing a whole text as a type: an exactly matching
/// keyword, or a parenthesized tuple of keywords surrounded by nothing but
/// whitespace.
pub open spec fn spec_parse_type(s: Seq<char>) -> Result<TypeView, FaultView> {
    match keyword_of(s) {
        Some(k) => Ok(k),
        None => {
            let a = ws_end(s, 0);
            if a < s.len() && s[a] == '(' {
                match tuple_elems(s, a + 1) {
                    Ok((es, end)) => {
                        let z = ws_end(s, end);
                        if z == s.len() {
                            Ok(TypeView::Tuple(es))
                        } else {
                            Err(FaultView { offset: z, expected: ExpectedToken::End })
                        }
                    },
                    Err(f) => Err(f),
                }
            } else {
                Err(FaultView { offset: a, expected: ExpectedToken::Char('(') })
            }
        },
    }
}

/// Recognise the scalar keyword spanning `[from, to)` of the input.
pub fn keyword_at(input: &str, from: usize, to: usize) -> (r: Option<DeaconType>)
    requires
        from <= to <= input@.len(),
    ensures
        match r {
            Some(t) => keyword_of(input@.subrange(from as int, to as int)) == Some(type_view(t))
                && is_scalar(t) && type_wf(t),
            None => keyword_of(input@.subrange(from as int, to as int)) is None,
        },
{
    proof {
        reveal_strlit("string");
        reveal_strlit("int");
        reveal_strlit("bool");
        reveal_strlit("null");
    }
    let ghost sub = input@.subrange(from as int, to as int);
    let len: usize = to - from;
    if len == 6 && check_match_at(input, "string", from) {
        proof {
            assert(sub =~= ("string")@);
        }
        return Some(DeaconType::String);
    }
    if len == 3 && check_match_at(input, "int", from) {
        proof {
            assert(sub =~= ("int")@);
            assert(sub != ("string")@);
        }
        return Some(DeaconType::Int);
    }
    if len == 4 && check_match_at(input, "bool", from) {
        proof {
            assert(sub =~= ("bool")@);
            assert(sub != ("string")@ && sub != ("int")@);
        }
        return Some(DeaconType::Bool);
    }
    if len == 4 && check_match_at(input, "null", from) {
        proof {
            assert(sub =~= ("null")@);
            assert(sub != ("string")@ && sub != ("int")@ && sub != ("bool")@);
        }
        return Some(DeaconType::Null);
    }
    proof {
        assert(sub.len() == len);
        assert(sub != ("string")@) by {
            if len == 6 {
                assert(!match_at(input@, ("string")@, from as int));
                assert(input@.subrange(from as int, from as int + 6) =~= sub);
            }
        }
        assert(sub != ("int")@) by {
            if len == 3 {
                assert(!match_at(input@, ("int")@, from as int));
                assert(input@.subrange(from as int, from as int + 3) =~= sub);
            }
        }
        assert(sub != ("bool")@) by {
            if len == 4 {
                assert(!match_at(input@, ("bool")@, from as int));
                assert(input@.subrange(from as int, from as int + 4) =~= sub);
            }
        }
        assert(sub != ("null")@) by {
            if len == 4 {
                assert(!match_at(input@, ("null")@, from as int));
                assert(input@.subrange(from as int, from as int + 4) =~= sub);
            }
        }
    }
    None
}

/// The element list starting at `i`, prefixed by the already collected
/// element views `acc`, composes to the element list starting at `start`.
pub open spec fn elem_list_continues(s: Seq<char>, start: int, i: int, acc: Seq<TypeView>) -> bool {
    match tuple_elem_list(s, i) {
        Ok(p) => tuple_elem_list(s, start) == Ok::<(Seq<TypeView>, int), FaultView>((
            acc + p.0,
            p.1,
        )),
        Err(f) => tuple_elem_list(s, start) == Err::<(Seq<TypeView>, int), FaultView>(f),
    }
}

/// Parse the non-empty element list of a tuple type.  On success the
/// returned elements are all scalar and the position is just past the
/// closing parenthesis.
pub(crate) fn parse_tuple_elem_list(input: &str, start: usize) -> (r: Result<
    (Vec<DeaconType>, usize),
    ParseFault,
>)
    requires
        start <= input@.len(),
    ensures
        match tuple_elem_list(input@, start as int) {
            Ok((es, end)) => r matches Ok((v, e)) && e as int == end && scalar_views(v@) == es
                && (forall|k: int| 0 <= k < v@.len() ==> is_scalar(#[trigger] v@[k]))
                && end <= input@.len(),
            Err(ff) => r matches Err(f) && f@.offset == ff.offset && f@.expected == ff.expected,
        },
{
    let n: usize = input.unicode_len();
    let mut elems: Vec<DeaconType> = Vec::new();
    let mut i: usize = start;
    let ghost start_int = start as int;
    proof {
        match tuple_elem_list(input@, start_int) {
            Ok(p) => {
                assert(scalar_views(elems@) =~= Seq::<TypeView>::empty());
                assert(Seq::<TypeView>::empty() + p.0 =~= p.0);
            },
            Err(_) => {},
        }
        assert(elem_list_continues(input@, start_int, start_int, scalar_views(elems@)));
    }
    loop
        invariant
            start <= i <= n,
            n == input@.len(),
            start_int == start as int,
            forall|k: int| 0 <= k < elems@.len() ==> is_scalar(#[trigger] elems@[k]),
            elem_list_continues(input@, start_int, i as int, scalar_views(elems@)),
        decreases n - i,
    {
        let a: usize = scan_ws_end(input, i);
        proof {
            lemma_ws_end(input@, i as int);
        }
        let j: usize = scan_word_end(input, a);
        proof {
            lemma_word_end(input@, a as int);
        }
        if j == n {
            return Err(ParseFault { offset: n, expected: ExpectedToken::TypeKeyword });
        }
        if j == a {
            return Err(ParseFault { offset: a, expected: ExpectedToken::TypeKeyword });
        }
        let kw = keyword_at(input, a, j);
        match kw {
            None => {
                return Err(ParseFault { offset: a, expected: ExpectedToken::TypeKeyword });
            },
            Some(t) => {
                let ghost kview = type_view(t);
                let ghost prev_map = scalar_views(elems@);
                elems.push(t);
                proof {
                    assert(scalar_views(elems@) =~= prev_map + seq![kview]);
                }
                let b: usize = scan_ws_end(input, j);
                proof {
                    lemma_ws_end(input@, j as int);
                }
                if b < n && input.get_char(b) == ',' {
                    proof {
                        match tuple_elem_list(input@, b as int + 1) {
                            Ok((rest, end)) => {
                                assert(tuple_elem_list(input@, i as int) == Ok::<_, FaultView>((
                                    seq![kview] + rest,
                                    end,
                                )));
                                assert(prev_map + (seq![kview] + rest)
                                    =~= (prev_map + seq![kview]) + rest);
                            },
                            Err(_) => {},
                        }
                    }
                    i = b + 1;
                } else if b < n && input.get_char(b) == ')' {
                    proof {
                        assert(tuple_elem_list(input@, i as int) == Ok::<_, FaultView>((
                            seq![kview],
                            (b + 1) as int,
                        )));
                        assert(prev_map + seq![kview] =~= scalar_views(elems@));
                    }
                    return Ok((elems, b + 1));
                } else {
                    return Err(ParseFault { offset: b, expected: ExpectedToken::Char(')') });
                }
            },
        }
    }
}

impl DeaconType {
    /// Parse a whole text as a type expression.
    ///
    /// The result, when the text is accepted, is well formed: a tuple
    /// holds scalar elements only.
    pub fn try_from(value: &str) -> (r: Result<DeaconType, ParseFault>)
        ensures
            match spec_parse_type(value@) {
                Ok(tv) => r matches Ok(t) && type_view(t) == tv && type_wf(t),
                Err(ff) => r matches Err(f) && f@.offset == ff.offset && f@.expected == ff.expected,
            },
    {
        let n: usize = value.unicode_len();
        if let Some(t) = keyword_at(value, 0, n) {
            proof {
                assert(value@.subrange(0, n as int) =~= value@);
            }
            return Ok(t);
        }
        proof {
            assert(value@.subrange(0, n as int) =~= value@);
        }
        let a: usize = scan_ws_end(value, 0);
        proof {
            lemma_ws_end(value@, 0);
        }
        if !(a < n && value.get_char(a) == '(') {
            return Err(ParseFault { offset: a, expected: ExpectedToken::Char('(') });
        }
        // Empty tuple: an immediate closing parenthesis.
        if a + 1 < n && value.get_char(a + 1) == ')' {
            let z: usize = scan_ws_end(value, a + 2);
            proof {
                lemma_ws_end(value@, a as int + 2);
            }
            if z == n {
                let empty: Vec<DeaconType> = Vec::new();
                proof {
                    assert(scalar_views(empty@) =~= Seq::<TypeView>::empty());
                }
                return Ok(DeaconType::Tuple(empty));
            }
            return Err(ParseFault { offset: z, expected: ExpectedToken::End });
        }
        match parse_tuple_elem_list(value, a + 1) {
            Ok((elems, end)) => {
                let z: usize = scan_ws_end(value, end);
                proof {
                    lemma_ws_end(value@, end as int);
                }
                if z == n {
                    Ok(DeaconType::Tuple(elems))
                } else {
                    Err(ParseFault { offset: z, expected: ExpectedToken::End })
                }
            },
            Err(f) => Err(f),
        }
    }
}

} // verus!

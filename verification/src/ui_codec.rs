//! Argument grammar of the plugin UI close events shared with child runtimes.
//!
//! `UI_CLOSED` carries `""` (non-indexed child) or `{"window":N}`; `UI_CLOSED_DONE` carries the
//! bare completion name (non-indexed) or `{"window":N,"completion":"NAME"}`. `N` is the canonical
//! decimal form of a `u64`. Decoding accepts exactly what encoding produces.

use crate::text::{
    ascii_string, bytes_equal, decimal_digits, decode_decimal_u64, is_ascii_bytes, is_digit,
    lemma_ascii_str_bytes, lemma_decimal_digits, push_decimal, push_str_bytes,
};
use vstd::prelude::*;
use vstd::string::*;
use vstd::utf8::*;

verus! {

/// Why `UI_CLOSED_DONE` finished the close.
#[derive(Debug, Clone, Copy, PartialEq, Eq)]
pub enum UiCloseCompletion {
    SafepointCompleted,
    TimedOutWithoutSave,
}

/// Stable identity of one plugin UI window (`None` = non-indexed child protocol).
pub type UiWindowKey = Option<u64>;

/// Why an event argument was rejected. Each variant carries the offending argument text.
#[derive(Debug, Clone, PartialEq, Eq)]
pub enum UiArgError {
    /// `UI_CLOSED` argument outside the grammar.
    InvalidClosedArg(String),
    /// `UI_CLOSED_DONE` without an argument.
    MissingClosedDoneArg,
    /// `UI_CLOSED_DONE` argument outside the grammar.
    InvalidClosedDoneArg(String),
    /// Unknown completion name inside an indexed `UI_CLOSED_DONE` argument.
    InvalidCompletion(String),
    /// Window token that is not the canonical decimal form of a `u64`.
    InvalidWindowToken(String),
}

/// `{"window":`
#[verifier::opaque]
pub open spec fn window_prefix() -> Seq<u8> {
    seq!['{' as u8, '"' as u8, 'w' as u8, 'i' as u8, 'n' as u8, 'd' as u8, 'o' as u8, 'w' as u8, '"' as u8, ':' as u8]
}

/// `}`
pub open spec fn closing_brace() -> Seq<u8> {
    seq!['}' as u8]
}

/// `,"completion":"`
#[verifier::opaque]
pub open spec fn completion_separator() -> Seq<u8> {
    seq![
        ',' as u8, '"' as u8, 'c' as u8, 'o' as u8, 'm' as u8, 'p' as u8, 'l' as u8, 'e' as u8,
        't' as u8, 'i' as u8, 'o' as u8, 'n' as u8, '"' as u8, ':' as u8, '"' as u8,
    ]
}

/// `"}`
pub open spec fn completion_suffix() -> Seq<u8> {
    seq!['"' as u8, '}' as u8]
}

/// `safepoint-completed` / `timeout-without-save`
#[verifier::opaque]
pub open spec fn completion_bytes(c: UiCloseCompletion) -> Seq<u8> {
    match c {
        UiCloseCompletion::SafepointCompleted => seq![
            's' as u8, 'a' as u8, 'f' as u8, 'e' as u8, 'p' as u8, 'o' as u8, 'i' as u8, 'n' as u8,
            't' as u8, '-' as u8, 'c' as u8, 'o' as u8, 'm' as u8, 'p' as u8, 'l' as u8, 'e' as u8,
            't' as u8, 'e' as u8, 'd' as u8,
        ],
        UiCloseCompletion::TimedOutWithoutSave => seq![
            't' as u8, 'i' as u8, 'm' as u8, 'e' as u8, 'o' as u8, 'u' as u8, 't' as u8, '-' as u8,
            'w' as u8, 'i' as u8, 't' as u8, 'h' as u8, 'o' as u8, 'u' as u8, 't' as u8, '-' as u8,
            's' as u8, 'a' as u8, 'v' as u8, 'e' as u8,
        ],
    }
}

/// Shape facts of the grammar literals.
pub proof fn lemma_literal_facts()
    ensures
        window_prefix().len() == 10,
        completion_separator().len() == 15,
        completion_separator()[0] == ',' as u8,
        completion_bytes(UiCloseCompletion::SafepointCompleted).len() == 19,
        completion_bytes(UiCloseCompletion::TimedOutWithoutSave).len() == 20,
        is_ascii_bytes(window_prefix()),
        is_ascii_bytes(completion_separator()),
        is_ascii_bytes(completion_bytes(UiCloseCompletion::SafepointCompleted)),
        is_ascii_bytes(completion_bytes(UiCloseCompletion::TimedOutWithoutSave)),
{
    reveal(window_prefix);
    reveal(completion_separator);
    reveal(completion_bytes);
}

/// The completion whose name these bytes are, if any.
pub open spec fn completion_named(b: Seq<u8>) -> Option<UiCloseCompletion> {
    if b == completion_bytes(UiCloseCompletion::SafepointCompleted) {
        Some(UiCloseCompletion::SafepointCompleted)
    } else if b == completion_bytes(UiCloseCompletion::TimedOutWithoutSave) {
        Some(UiCloseCompletion::TimedOutWithoutSave)
    } else {
        None
    }
}

/// Encoded `UI_CLOSED` argument.
pub open spec fn closed_arg_bytes(window: UiWindowKey) -> Seq<u8> {
    match window {
        None => Seq::<u8>::empty(),
        Some(w) => window_prefix() + decimal_digits(w as nat) + closing_brace(),
    }
}

/// Encoded `UI_CLOSED_DONE` argument.
pub open spec fn closed_done_arg_bytes(window: UiWindowKey, c: UiCloseCompletion) -> Seq<u8> {
    match window {
        None => completion_bytes(c),
        Some(w) => window_prefix() + decimal_digits(w as nat) + completion_separator() + completion_bytes(c)
            + completion_suffix(),
    }
}

/// `s` starts with `p`.
pub open spec fn has_prefix(s: Seq<u8>, p: Seq<u8>) -> bool {
    p.len() <= s.len() && s.subrange(0, p.len() as int) == p
}

/// `s` ends with `p`.
pub open spec fn has_suffix(s: Seq<u8>, p: Seq<u8>) -> bool {
    p.len() <= s.len() && s.subrange(s.len() - p.len(), s.len() as int) == p
}

/// `needle` occurs in `hay` at `i`.
pub open spec fn occurs_at(hay: Seq<u8>, needle: Seq<u8>, i: int) -> bool {
    0 <= i && i + needle.len() <= hay.len() && hay.subrange(i, i + needle.len()) == needle
}

/// First occurrence of `needle` in `hay` at or after `k`.
pub open spec fn first_occurrence_from(hay: Seq<u8>, needle: Seq<u8>, k: int) -> Option<int>
    decreases hay.len() + 1 - k,
{
    if k < 0 || k > hay.len() {
        None
    } else if occurs_at(hay, needle, k) {
        Some(k)
    } else {
        first_occurrence_from(hay, needle, k + 1)
    }
}

/// First occurrence of `needle` in `hay`.
pub open spec fn first_occurrence(hay: Seq<u8>, needle: Seq<u8>) -> Option<int> {
    first_occurrence_from(hay, needle, 0)
}

/// The window token bytes a decimal decode accepts.
pub open spec fn window_token(b: Seq<u8>) -> Option<u64> {
    if exists|n: u64| b == decimal_digits(n as nat) {
        Some(choose|n: u64| b == decimal_digits(n as nat))
    } else {
        None
    }
}

/// What decoding a `UI_CLOSED` argument yields (`None` = rejected).
pub open spec fn decode_closed_spec(arg: Option<Seq<u8>>) -> Option<UiWindowKey> {
    match arg {
        None => Some(None),
        Some(b) => if b.len() == 0 {
            Some(None)
        } else if has_prefix(b, window_prefix()) && b.len() >= window_prefix().len() + 1 && b.last()
            == '}' as u8 {
            match window_token(b.subrange(window_prefix().len() as int, b.len() - 1)) {
                Some(w) => Some(Some(w)),
                None => None,
            }
        } else {
            None
        },
    }
}

/// What the part of an indexed `UI_CLOSED_DONE` argument after `{"window":` decodes to.
pub open spec fn decode_indexed_done_spec(body: Seq<u8>) -> Option<(UiWindowKey, UiCloseCompletion)> {
    match first_occurrence(body, completion_separator()) {
        Some(i) => {
            let token = body.subrange(0, i);
            let rest = body.subrange(i + completion_separator().len(), body.len() as int);
            if has_suffix(rest, completion_suffix()) {
                match completion_named(rest.subrange(0, rest.len() - 2)) {
                    Some(c) => match window_token(token) {
                        Some(w) => Some((Some(w), c)),
                        None => None,
                    },
                    None => None,
                }
            } else {
                None
            }
        },
        None => None,
    }
}

/// What decoding a `UI_CLOSED_DONE` argument yields (`None` = rejected).
pub open spec fn decode_closed_done_spec(arg: Option<Seq<u8>>) -> Option<(UiWindowKey, UiCloseCompletion)> {
    match arg {
        None => None,
        Some(b) => match completion_named(b) {
            Some(c) => Some((None, c)),
            None => if has_prefix(b, window_prefix()) {
                decode_indexed_done_spec(b.subrange(window_prefix().len() as int, b.len() as int))
            } else {
                None
            },
        },
    }
}

/// The UTF-8 bytes of an optional argument.
pub open spec fn arg_bytes(arg: Option<&str>) -> Option<Seq<u8>> {
    match arg {
        None => None,
        Some(s) => Some(s.spec_bytes()),
    }
}

/// Bytes of an ASCII string literal.
fn lit_bytes(s: &str) -> (r: Vec<u8>)
    requires
        is_ascii_chars(s@),
    ensures
        r@ == Seq::new(s@.len(), |i: int| s@[i] as u8),
{
    proof {
        lemma_ascii_str_bytes(s);
    }
    let mut v: Vec<u8> = Vec::new();
    push_str_bytes(&mut v, s);
    proof {
        assert(v@ =~= Seq::new(s@.len(), |i: int| s@[i] as u8));
    }
    v
}

fn window_prefix_bytes() -> (r: Vec<u8>)
    ensures
        r@ == window_prefix(),
{
    proof {
        reveal_strlit("{\"window\":");
    }
    let v = lit_bytes("{\"window\":");
    proof {
        reveal(window_prefix);
        assert(v@ =~= window_prefix());
    }
    v
}

fn completion_separator_bytes() -> (r: Vec<u8>)
    ensures
        r@ == completion_separator(),
{
    proof {
        reveal_strlit(",\"completion\":\"");
    }
    let v = lit_bytes(",\"completion\":\"");
    proof {
        reveal(completion_separator);
        assert(v@ =~= completion_separator());
    }
    v
}

fn completion_name_bytes(c: UiCloseCompletion) -> (r: Vec<u8>)
    ensures
        r@ == completion_bytes(c),
{
    match c {
        UiCloseCompletion::SafepointCompleted => {
            proof {
                reveal_strlit("safepoint-completed");
            }
            let v = lit_bytes("safepoint-completed");
            proof {
                reveal(completion_bytes);
                assert(v@ =~= completion_bytes(c));
            }
            v
        },
        UiCloseCompletion::TimedOutWithoutSave => {
            proof {
                reveal_strlit("timeout-without-save");
            }
            let v = lit_bytes("timeout-without-save");
            proof {
                reveal(completion_bytes);
                assert(v@ =~= completion_bytes(c));
            }
            v
        },
    }
}

impl UiCloseCompletion {
    /// Wire name of the completion.
    pub fn as_str(self) -> (r: &'static str)
        ensures
            r.spec_bytes() == completion_bytes(self),
    {
        match self {
            UiCloseCompletion::SafepointCompleted => {
                proof {
                    reveal_strlit("safepoint-completed");
                    lemma_ascii_str_bytes("safepoint-completed");
                    reveal(completion_bytes);
                    assert("safepoint-completed".spec_bytes() =~= completion_bytes(self));
                }
                "safepoint-completed"
            },
            UiCloseCompletion::TimedOutWithoutSave => {
                proof {
                    reveal_strlit("timeout-without-save");
                    lemma_ascii_str_bytes("timeout-without-save");
                    reveal(completion_bytes);
                    assert("timeout-without-save".spec_bytes() =~= completion_bytes(self));
                }
                "timeout-without-save"
            },
        }
    }
}

proof fn lemma_grammar_is_ascii(w: UiWindowKey, c: UiCloseCompletion)
    ensures
        is_ascii_bytes(closed_arg_bytes(w)),
        is_ascii_bytes(closed_done_arg_bytes(w, c)),
{
    lemma_literal_facts();
    if let Some(n) = w {
        lemma_decimal_digits(n as nat);
    }
    let cb = completion_bytes(c);
    assert(is_ascii_bytes(cb));
    match w {
        None => {},
        Some(n) => {
            let d = decimal_digits(n as nat);
            assert(is_ascii_bytes(d)) by {
                assert forall|i: int| 0 <= i < d.len() implies #[trigger] d[i] < 128 by {
                    assert(is_digit(d[i]));
                }
            }
        },
    }
}

fn append_all(v: &mut Vec<u8>, tail: &Vec<u8>)
    ensures
        final(v)@ == old(v)@ + tail@,
{
    let mut i: usize = 0;
    while i < tail.len()
        invariant
            0 <= i <= tail@.len(),
            v@ == old(v)@ + tail@.subrange(0, i as int),
        decreases tail@.len() - i,
    {
        v.push(tail[i]);
        proof {
            assert(tail@.subrange(0, i + 1) =~= tail@.subrange(0, i as int).push(tail@[i as int]));
        }
        i += 1;
    }
    proof {
        assert(tail@.subrange(0, tail@.len() as int) =~= tail@);
    }
}

/// Encode the fixed `UI_CLOSED` argument grammar.
pub fn encode_ui_closed_arg(window: UiWindowKey) -> (r: String)
    ensures
        encode_utf8(r@) == closed_arg_bytes(window),
{
    let mut v: Vec<u8> = Vec::new();
    if let Some(w) = window {
        v = window_prefix_bytes();
        push_decimal(&mut v, w);
        v.push(125u8);
    }
    proof {
        assert(v@ =~= closed_arg_bytes(window));
        lemma_grammar_is_ascii(window, UiCloseCompletion::SafepointCompleted);
    }
    ascii_string(&v)
}

/// Encode the fixed `UI_CLOSED_DONE` argument grammar.
pub fn encode_ui_closed_done_arg(window: UiWindowKey, completion: UiCloseCompletion) -> (r: String)
    ensures
        encode_utf8(r@) == closed_done_arg_bytes(window, completion),
{
    let name = completion_name_bytes(completion);
    let v = match window {
        None => name,
        Some(w) => {
            let mut v = window_prefix_bytes();
            push_decimal(&mut v, w);
            let sep = completion_separator_bytes();
            append_all(&mut v, &sep);
            append_all(&mut v, &name);
            v.push(34u8);
            v.push(125u8);
            v
        },
    };
    proof {
        assert(v@ =~= closed_done_arg_bytes(window, completion));
        lemma_grammar_is_ascii(window, completion);
    }
    ascii_string(&v)
}

fn starts_with_bytes(s: &[u8], p: &Vec<u8>) -> (r: bool)
    ensures
        r == has_prefix(s@, p@),
{
    if p.len() > s.len() {
        return false;
    }
    let mut i: usize = 0;
    while i < p.len()
        invariant
            0 <= i <= p@.len(),
            p@.len() <= s@.len(),
            forall|j: int| 0 <= j < i ==> s@[j] == p@[j],
        decreases p@.len() - i,
    {
        if s[i] != p[i] {
            proof {
                assert(s@.subrange(0, p@.len() as int)[i as int] != p@[i as int]);
            }
            return false;
        }
        i += 1;
    }
    proof {
        assert(s@.subrange(0, p@.len() as int) =~= p@);
    }
    true
}

fn occurs_at_exec(hay: &[u8], needle: &Vec<u8>, i: usize) -> (r: bool)
    ensures
        r == occurs_at(hay@, needle@, i as int),
{
    if i > hay.len() || needle.len() > hay.len() - i {
        return false;
    }
    let end = i + needle.len();
    let mut k: usize = 0;
    while k < needle.len()
        invariant
            0 <= k <= needle@.len(),
            end == i + needle@.len(),
            end <= hay@.len(),
            forall|j: int| 0 <= j < k ==> hay@[i + j] == needle@[j],
        decreases needle@.len() - k,
    {
        if hay[i + k] != needle[k] {
            proof {
                assert(hay@.subrange(i as int, i + needle@.len())[k as int] != needle@[k as int]);
            }
            return false;
        }
        k += 1;
    }
    proof {
        assert(hay@.subrange(i as int, i + needle@.len()) =~= needle@);
    }
    true
}

proof fn lemma_first_occurrence_is(hay: Seq<u8>, needle: Seq<u8>, i: int)
    requires
        occurs_at(hay, needle, i),
        forall|j: int| 0 <= j < i ==> !occurs_at(hay, needle, j),
    ensures
        first_occurrence(hay, needle) == Some(i),
{
    lemma_first_from_reaches(hay, needle, 0, i);
}

proof fn lemma_first_from_reaches(hay: Seq<u8>, needle: Seq<u8>, k: int, i: int)
    requires
        0 <= k <= i,
        occurs_at(hay, needle, i),
        forall|j: int| k <= j < i ==> !occurs_at(hay, needle, j),
    ensures
        first_occurrence_from(hay, needle, k) == Some(i),
    decreases i - k,
{
    if k < i {
        lemma_first_from_reaches(hay, needle, k + 1, i);
    }
}

proof fn lemma_first_from_none(hay: Seq<u8>, needle: Seq<u8>, k: int)
    requires
        0 <= k,
        forall|j: int| k <= j <= hay.len() ==> !occurs_at(hay, needle, j),
    ensures
        first_occurrence_from(hay, needle, k) is None,
    decreases hay.len() + 1 - k,
{
    if k <= hay.len() {
        lemma_first_from_none(hay, needle, k + 1);
    }
}

proof fn lemma_first_from_sound(hay: Seq<u8>, needle: Seq<u8>, k: int)
    ensures
        first_occurrence_from(hay, needle, k) matches Some(i) ==> occurs_at(hay, needle, i) && k <= i,
    decreases hay.len() + 1 - k,
{
    if 0 <= k <= hay.len() && !occurs_at(hay, needle, k) {
        lemma_first_from_sound(hay, needle, k + 1);
    }
}

proof fn lemma_first_occurrence_sound(hay: Seq<u8>, needle: Seq<u8>)
    ensures
        first_occurrence(hay, needle) matches Some(i) ==> occurs_at(hay, needle, i),
{
    lemma_first_from_sound(hay, needle, 0);
}

fn find_first(hay: &[u8], needle: &Vec<u8>) -> (r: Option<usize>)
    ensures
        match r {
            Some(i) => first_occurrence(hay@, needle@) == Some(i as int),
            None => first_occurrence(hay@, needle@) is None,
        },
{
    let mut i: usize = 0;
    while i < hay.len()
        invariant
            0 <= i <= hay@.len(),
            forall|j: int| 0 <= j < i ==> !occurs_at(hay@, needle@, j),
        decreases hay@.len() - i,
    {
        if occurs_at_exec(hay, needle, i) {
            proof {
                lemma_first_occurrence_is(hay@, needle@, i as int);
            }
            return Some(i);
        }
        i += 1;
    }
    if occurs_at_exec(hay, needle, i) {
        proof {
            lemma_first_occurrence_is(hay@, needle@, i as int);
        }
        return Some(i);
    }
    proof {
        lemma_first_from_none(hay@, needle@, 0);
    }
    None
}

fn window_token_exec(b: &[u8]) -> (r: Option<u64>)
    ensures
        r == window_token(b@),
{
    let r = decode_decimal_u64(b);
    proof {
        match r {
            Some(n) => {
                lemma_decimal_injective_u64(n, choose|m: u64| b@ == decimal_digits(m as nat));
            },
            None => {},
        }
    }
    r
}

/// Canonical decimal forms of different numbers differ.
pub proof fn lemma_decimal_injective_u64(a: u64, b: u64)
    requires
        decimal_digits(a as nat) == decimal_digits(b as nat),
    ensures
        a == b,
{
    lemma_decimal_digits(a as nat);
    lemma_decimal_digits(b as nat);
}

fn completion_named_exec(b: &[u8]) -> (r: Option<UiCloseCompletion>)
    ensures
        r == completion_named(b@),
{
    let sc = completion_name_bytes(UiCloseCompletion::SafepointCompleted);
    if bytes_equal(b, sc.as_slice()) {
        return Some(UiCloseCompletion::SafepointCompleted);
    }
    let tw = completion_name_bytes(UiCloseCompletion::TimedOutWithoutSave);
    if bytes_equal(b, tw.as_slice()) {
        return Some(UiCloseCompletion::TimedOutWithoutSave);
    }
    None
}

fn owned_arg(arg: &str) -> (r: String)
    ensures
        r@ == arg@,
{
    arg.to_owned()
}

/// Decode only the fixed grammar emitted by [`encode_ui_closed_arg`].
pub fn decode_ui_closed_arg(arg: Option<&str>) -> (r: Result<UiWindowKey, UiArgError>)
    ensures
        match decode_closed_spec(arg_bytes(arg)) {
            Some(w) => r == Ok::<UiWindowKey, UiArgError>(w),
            None => r is Err,
        },
{
    match arg {
        None => Ok(None),
        Some(s) => {
            let b = s.as_bytes();
            if b.len() == 0 {
                return Ok(None);
            }
            let prefix = window_prefix_bytes();
            if !starts_with_bytes(b, &prefix) || b.len() <= prefix.len() || b[b.len() - 1] != 125u8 {
                return Err(UiArgError::InvalidClosedArg(owned_arg(s)));
            }
            let token = vstd::slice::slice_subrange(b, prefix.len(), b.len() - 1);
            match window_token_exec(token) {
                Some(w) => Ok(Some(w)),
                None => Err(UiArgError::InvalidWindowToken(owned_arg(s))),
            }
        },
    }
}

enum IndexedDoneFailure {
    Grammar,
    Completion,
    Token,
}

fn decode_indexed_done(body: &[u8]) -> (r: Result<(u64, UiCloseCompletion), IndexedDoneFailure>)
    ensures
        match decode_indexed_done_spec(body@) {
            Some((w, c)) => r matches Ok((n, k)) && w == Some(n) && k == c,
            None => r is Err,
        },
{
    let sep = completion_separator_bytes();
    let i = match find_first(body, &sep) {
        Some(i) => i,
        None => {
            return Err(IndexedDoneFailure::Grammar);
        },
    };
    proof {
        lemma_first_occurrence_sound(body@, sep@);
        assert(i + sep@.len() <= body@.len());
        assert(body@.len() == body.len());
    }
    let token = vstd::slice::slice_subrange(body, 0, i);
    let rest = vstd::slice::slice_subrange(body, i + sep.len(), body.len());
    if rest.len() < 2 || rest[rest.len() - 2] != 34u8 || rest[rest.len() - 1] != 125u8 {
        proof {
            if has_suffix(rest@, completion_suffix()) {
                assert(rest@.subrange(rest@.len() - 2, rest@.len() as int)[0] == rest@[rest@.len() - 2]);
                assert(rest@.subrange(rest@.len() - 2, rest@.len() as int)[1] == rest@[rest@.len() - 1]);
            }
        }
        return Err(IndexedDoneFailure::Grammar);
    }
    proof {
        assert(rest@.subrange(rest@.len() - 2, rest@.len() as int) =~= completion_suffix());
    }
    let name = vstd::slice::slice_subrange(rest, 0, rest.len() - 2);
    let completion = match completion_named_exec(name) {
        Some(c) => c,
        None => {
            return Err(IndexedDoneFailure::Completion);
        },
    };
    match window_token_exec(token) {
        Some(w) => Ok((w, completion)),
        None => Err(IndexedDoneFailure::Token),
    }
}

/// Decode only the fixed grammar emitted by [`encode_ui_closed_done_arg`].
pub fn decode_ui_closed_done_arg(arg: Option<&str>) -> (r: Result<(UiWindowKey, UiCloseCompletion), UiArgError>)
    ensures
        match decode_closed_done_spec(arg_bytes(arg)) {
            Some(d) => r == Ok::<(UiWindowKey, UiCloseCompletion), UiArgError>(d),
            None => r is Err,
        },
{
    let s = match arg {
        None => {
            return Err(UiArgError::MissingClosedDoneArg);
        },
        Some(s) => s,
    };
    let b = s.as_bytes();
    if let Some(c) = completion_named_exec(b) {
        return Ok((None, c));
    }
    let prefix = window_prefix_bytes();
    if !starts_with_bytes(b, &prefix) {
        return Err(UiArgError::InvalidClosedDoneArg(owned_arg(s)));
    }
    let body = vstd::slice::slice_subrange(b, prefix.len(), b.len());
    match decode_indexed_done(body) {
        Ok((w, c)) => Ok((Some(w), c)),
        Err(IndexedDoneFailure::Grammar) => Err(UiArgError::InvalidClosedDoneArg(owned_arg(s))),
        Err(IndexedDoneFailure::Completion) => Err(UiArgError::InvalidCompletion(owned_arg(s))),
        Err(IndexedDoneFailure::Token) => Err(UiArgError::InvalidWindowToken(owned_arg(s))),
    }
}

/// Decoding an encoded `UI_CLOSED` argument gives back the window, for every window.
pub proof fn lemma_closed_arg_round_trip(window: UiWindowKey)
    ensures
        decode_closed_spec(Some(closed_arg_bytes(window))) == Some(window),
{
    if let Some(w) = window {
        lemma_literal_facts();
        let b = closed_arg_bytes(window);
        let d = decimal_digits(w as nat);
        lemma_decimal_digits(w as nat);
        assert(b.subrange(0, 10) =~= window_prefix());
        assert(b.subrange(10, b.len() - 1) =~= d);
        lemma_window_token_of_digits(w);
    }
}

proof fn lemma_separator_follows_token(d: Seq<u8>, tail: Seq<u8>)
    requires
        forall|i: int| 0 <= i < d.len() ==> is_digit(#[trigger] d[i]),
    ensures
        first_occurrence(d + completion_separator() + tail, completion_separator()) == Some(d.len() as int),
{
    let sep = completion_separator();
    lemma_literal_facts();
    let body = d + sep + tail;
    assert(body.subrange(d.len() as int, d.len() + sep.len() as int) =~= sep);
    assert forall|j: int| 0 <= j < d.len() implies !occurs_at(body, sep, j) by {
        if occurs_at(body, sep, j) {
            assert(body.subrange(j, j + sep.len())[0] == body[j]);
            assert(body[j] == d[j]);
            assert(is_digit(d[j]));
        }
    }
    lemma_first_occurrence_is(body, sep, d.len() as int);
}

proof fn lemma_window_token_of_digits(w: u64)
    ensures
        window_token(decimal_digits(w as nat)) == Some(w),
{
    let d = decimal_digits(w as nat);
    let n = choose|n: u64| d == decimal_digits(n as nat);
    lemma_decimal_injective_u64(n, w);
}

/// Decoding an encoded `UI_CLOSED_DONE` argument gives back the window and the completion, for
/// every window and completion.
pub proof fn lemma_closed_done_arg_round_trip(window: UiWindowKey, c: UiCloseCompletion)
    ensures
        decode_closed_done_spec(Some(closed_done_arg_bytes(window, c))) == Some((window, c)),
{
    lemma_literal_facts();
    let sc = completion_bytes(UiCloseCompletion::SafepointCompleted);
    let tw = completion_bytes(UiCloseCompletion::TimedOutWithoutSave);
    assert(sc.len() != tw.len());
    match window {
        None => {},
        Some(w) => {
            let b = closed_done_arg_bytes(window, c);
            let d = decimal_digits(w as nat);
            lemma_decimal_digits(w as nat);
            assert(completion_named(b) is None) by {
                assert(b.len() > 20);
            }
            assert(b.subrange(0, 10) =~= window_prefix());
            let body = b.subrange(10, b.len() as int);
            let sep = completion_separator();
            let tail = completion_bytes(c) + completion_suffix();
            assert(body =~= d + sep + tail);
            lemma_separator_follows_token(d, tail);
            let i = d.len() as int;
            assert(body.subrange(0, i) =~= d);
            let rest = body.subrange(i + sep.len(), body.len() as int);
            assert(rest =~= tail);
            assert(rest.subrange(rest.len() - 2, rest.len() as int) =~= completion_suffix());
            assert(rest.subrange(0, rest.len() - 2) =~= completion_bytes(c));
            lemma_window_token_of_digits(w);
        },
    }
}

} // verus!

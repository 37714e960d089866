//! The crate's JSON value model with a verified serializer and parser.
//!
//! Wire frames of the browser-control protocol are JSON objects; this module
//! gives them a concrete model (`JsonValue`), a mathematical mirror (`Jv`)
//! that contracts speak of, a serializer proved to produce exactly the
//! canonical rendering `ser`, and a parser proved to agree with the spec
//! parser `parse_doc`. The round-trip law — parsing a serialized value gives
//! the value back — is proved in `lemma_round_trip`.
//!
//! Numbers are 64-bit signed integers; strings escape the quote, the
//! backslash, newline, carriage return and tab, and the parser additionally
//! accepts the escapes `\/`, `\b` and `\f`.

use vstd::prelude::*;
use crate::strutil::{dec_int, push_char, string_from_chars, i64_to_dec};

verus! {

/// A JSON value as held and produced by executable code.
pub enum JsonValue {
    Null,
    Bool(bool),
    Int(i64),
    Str(String),
    Arr(Vec<JsonValue>),
    Obj(Vec<(String, JsonValue)>),
}

/// The mathematical mirror of `JsonValue`: what contracts and lemmas
/// speak of.
pub enum Jv {
    Null,
    Bool(bool),
    Int(int),
    Str(Seq<char>),
    Arr(Seq<Jv>),
    Obj(Seq<(Seq<char>, Jv)>),
}

pub open spec fn deep(v: JsonValue) -> Jv
    decreases v,
{
    match v {
        JsonValue::Null => Jv::Null,
        JsonValue::Bool(b) => Jv::Bool(b),
        JsonValue::Int(n) => Jv::Int(n as int),
        JsonValue::Str(s) => Jv::Str(s@),
        JsonValue::Arr(a) => Jv::Arr(deep_items(a@)),
        JsonValue::Obj(m) => Jv::Obj(deep_members(m@)),
    }
}

pub open spec fn deep_items(s: Seq<JsonValue>) -> Seq<Jv>
    decreases s,
{
    if s.len() == 0 {
        Seq::empty()
    } else {
        seq![deep(s[0])] + deep_items(s.drop_first())
    }
}

pub open spec fn deep_members(s: Seq<(String, JsonValue)>) -> Seq<(Seq<char>, Jv)>
    decreases s,
{
    if s.len() == 0 {
        Seq::empty()
    } else {
        seq![(s[0].0@, deep(s[0].1))] + deep_members(s.drop_first())
    }
}

impl View for JsonValue {
    type V = Jv;

    open spec fn view(&self) -> Jv {
        deep(*self)
    }
}

/// An integer that executable code can hold; string and key contents are
/// unconstrained.
pub open spec fn jv_wf(v: Jv) -> bool
    decreases v,
{
    match v {
        Jv::Int(n) => i64::MIN <= n <= i64::MAX,
        Jv::Arr(items) => forall|i: int| 0 <= i < items.len() ==> jv_wf(#[trigger] items[i]),
        Jv::Obj(ms) => forall|i: int| 0 <= i < ms.len() ==> jv_wf(#[trigger] ms[i].1),
        _ => true,
    }
}

/// A structural weight used as the termination measure of the executable
/// recursion over values.
pub open spec fn jweight(v: JsonValue) -> nat
    decreases v,
{
    match v {
        JsonValue::Arr(a) => 1 + jweight_items(a@),
        JsonValue::Obj(m) => 1 + jweight_members(m@),
        _ => 1,
    }
}

pub open spec fn jweight_items(s: Seq<JsonValue>) -> nat
    decreases s,
{
    if s.len() == 0 {
        0
    } else {
        jweight(s[0]) + jweight_items(s.drop_first())
    }
}

pub open spec fn jweight_members(s: Seq<(String, JsonValue)>) -> nat
    decreases s,
{
    if s.len() == 0 {
        0
    } else {
        jweight(s[0].1) + jweight_members(s.drop_first())
    }
}

proof fn lemma_jweight_items_bound(s: Seq<JsonValue>, i: int)
    requires
        0 <= i < s.len(),
    ensures
        jweight(s[i]) <= jweight_items(s),
    decreases s.len(),
{
    if i > 0 {
        lemma_jweight_items_bound(s.drop_first(), i - 1);
        assert(s.drop_first()[i - 1] == s[i]);
    }
}

proof fn lemma_jweight_members_bound(s: Seq<(String, JsonValue)>, i: int)
    requires
        0 <= i < s.len(),
    ensures
        jweight(s[i].1) <= jweight_members(s),
    decreases s.len(),
{
    if i > 0 {
        lemma_jweight_members_bound(s.drop_first(), i - 1);
        assert(s.drop_first()[i - 1] == s[i]);
    }
}

// ------------------------------------------------------------------
// Serialization
// ------------------------------------------------------------------

/// The rendering of one string character.
pub open spec fn esc_char(c: char) -> Seq<char> {
    if c == '"' {
        seq!['\\', '"']
    } else if c == '\\' {
        seq!['\\', '\\']
    } else if c == '\n' {
        seq!['\\', 'n']
    } else if c == '\r' {
        seq!['\\', 'r']
    } else if c == '\t' {
        seq!['\\', 't']
    } else {
        seq![c]
    }
}

/// The rendering of a string body, character by character.
pub open spec fn esc_str(s: Seq<char>) -> Seq<char>
    decreases s.len(),
{
    if s.len() == 0 {
        Seq::empty()
    } else {
        esc_char(s[0]) + esc_str(s.drop_first())
    }
}

/// The rendering of a string, quotes included.
pub open spec fn ser_str(s: Seq<char>) -> Seq<char> {
    seq!['"'] + esc_str(s) + seq!['"']
}

/// The canonical rendering of a value: no whitespace, fields in order.
pub open spec fn ser(v: Jv) -> Seq<char>
    decreases v,
{
    match v {
        Jv::Null => seq!['n', 'u', 'l', 'l'],
        Jv::Bool(b) => if b {
            seq!['t', 'r', 'u', 'e']
        } else {
            seq!['f', 'a', 'l', 's', 'e']
        },
        Jv::Int(n) => dec_int(n),
        Jv::Str(s) => ser_str(s),
        Jv::Arr(items) => seq!['['] + ser_items(items) + seq![']'],
        Jv::Obj(ms) => seq!['{'] + ser_members(ms) + seq!['}'],
    }
}

pub open spec fn ser_items(items: Seq<Jv>) -> Seq<char>
    decreases items,
{
    if items.len() == 0 {
        Seq::empty()
    } else if items.len() == 1 {
        ser(items[0])
    } else {
        ser(items[0]) + seq![','] + ser_items(items.drop_first())
    }
}

pub open spec fn ser_members(ms: Seq<(Seq<char>, Jv)>) -> Seq<char>
    decreases ms,
{
    if ms.len() == 0 {
        Seq::empty()
    } else if ms.len() == 1 {
        ser_str(ms[0].0) + seq![':'] + ser(ms[0].1)
    } else {
        ser_str(ms[0].0) + seq![':'] + ser(ms[0].1) + seq![','] + ser_members(ms.drop_first())
    }
}

/// Appending one more item extends the rendering by a comma and the item.
proof fn lemma_ser_items_snoc(items: Seq<Jv>, x: Jv)
    requires
        items.len() >= 1,
    ensures
        ser_items(items.push(x)) == ser_items(items) + seq![','] + ser(x),
    decreases items.len(),
{
    let p = items.push(x);
    assert(p[0] == items[0]);
    if items.len() == 1 {
        assert(p.drop_first() =~= seq![x]);
        assert(ser_items(p.drop_first()) == ser(x));
        assert(ser_items(p) =~= ser_items(items) + seq![','] + ser(x));
    } else {
        assert(p.drop_first() =~= items.drop_first().push(x));
        lemma_ser_items_snoc(items.drop_first(), x);
        assert(ser_items(p) =~= ser_items(items) + seq![','] + ser(x));
    }
}

/// Appending one more member extends the rendering by a comma and the member.
proof fn lemma_ser_members_snoc(ms: Seq<(Seq<char>, Jv)>, k: Seq<char>, x: Jv)
    requires
        ms.len() >= 1,
    ensures
        ser_members(ms.push((k, x))) == ser_members(ms) + seq![','] + ser_str(k) + seq![':']
            + ser(x),
    decreases ms.len(),
{
    let p = ms.push((k, x));
    assert(p[0] == ms[0]);
    if ms.len() == 1 {
        assert(p.drop_first() =~= seq![(k, x)]);
        assert(ser_members(p.drop_first()) == ser_str(k) + seq![':'] + ser(x));
        assert(ser_members(p) =~= ser_members(ms) + seq![','] + ser_str(k) + seq![':'] + ser(x));
    } else {
        assert(p.drop_first() =~= ms.drop_first().push((k, x)));
        lemma_ser_members_snoc(ms.drop_first(), k, x);
        assert(ser_members(p) =~= ser_members(ms) + seq![','] + ser_str(k) + seq![':'] + ser(x));
    }
}

/// Serialize one string, quotes and escapes included.
pub fn write_json_string(out: &mut String, s: &str)
    ensures
        final(out)@ == old(out)@ + ser_str(s@),
{
    let n: usize = s.unicode_len();
    push_char(out, '"');
    let mut i: usize = 0;
    while i < n
        invariant
            0 <= i <= n,
            n == s@.len(),
            out@ == old(out)@ + seq!['"'] + esc_str(s@.subrange(0, i as int)),
        decreases n - i,
    {
        let c: char = s.get_char(i);
        if c == '"' {
            push_char(out, '\\');
            push_char(out, '"');
        } else if c == '\\' {
            push_char(out, '\\');
            push_char(out, '\\');
        } else if c == '\n' {
            push_char(out, '\\');
            push_char(out, 'n');
        } else if c == '\r' {
            push_char(out, '\\');
            push_char(out, 'r');
        } else if c == '\t' {
            push_char(out, '\\');
            push_char(out, 't');
        } else {
            push_char(out, c);
        }
        proof {
            lemma_esc_str_snoc(s@.subrange(0, i + 1 as int));
            assert(s@.subrange(0, i + 1 as int).drop_last() =~= s@.subrange(0, i as int));
            assert(out@ =~= old(out)@ + seq!['"'] + esc_str(s@.subrange(0, i + 1 as int)));
        }
        i += 1;
    }
    push_char(out, '"');
    proof {
        assert(s@.subrange(0, s@.len() as int) =~= s@);
        assert(out@ =~= old(out)@ + ser_str(s@));
    }
}

/// The escaped body can be peeled at its last character too.
proof fn lemma_esc_str_snoc(s: Seq<char>)
    requires
        s.len() >= 1,
    ensures
        esc_str(s) == esc_str(s.drop_last()) + esc_char(s.last()),
    decreases s.len(),
{
    if s.len() == 1 {
        assert(s.drop_first() =~= Seq::<char>::empty());
        assert(s.drop_last() =~= Seq::<char>::empty());
        assert(esc_str(s) =~= esc_str(s.drop_last()) + esc_char(s.last()));
    } else {
        lemma_esc_str_snoc(s.drop_first());
        assert(s.drop_first().drop_last() =~= s.drop_last().drop_first());
        assert(s.drop_first().last() == s.last());
        assert(s.drop_last()[0] == s[0]);
        assert(esc_str(s) =~= esc_str(s.drop_last()) + esc_char(s.last()));
    }
}

/// Append the canonical rendering of `v` to `out`.
#[verifier::loop_isolation(false)]
#[verifier::rlimit(60)]
pub fn write_json(out: &mut String, v: &JsonValue)
    ensures
        final(out)@ == old(out)@ + ser(v@),
    decreases jweight(*v),
{
    match v {
        JsonValue::Null => {
            out.append("null");
            proof {
                reveal_strlit("null");
                assert(out@ =~= old(out)@ + ser(v@));
            }
        },
        JsonValue::Bool(b) => {
            if *b {
                out.append("true");
                proof {
                    reveal_strlit("true");
                    assert(out@ =~= old(out)@ + ser(v@));
                }
            } else {
                out.append("false");
                proof {
                    reveal_strlit("false");
                    assert(out@ =~= old(out)@ + ser(v@));
                }
            }
        },
        JsonValue::Int(n) => {
            let d: String = i64_to_dec(*n);
            out.append(d.as_str());
        },
        JsonValue::Str(s) => {
            write_json_string(out, s.as_str());
        },
        JsonValue::Arr(items) => {
            push_char(out, '[');
            let m: usize = items.len();
            let mut i: usize = 0;
            while i < m
                invariant
                    0 <= i <= m,
                    m == items@.len(),
                    i == 0 ==> out@ == old(out)@ + seq!['['],
                    i > 0 ==> out@ == old(out)@ + seq!['['] + ser_items(
                        deep_items(items@.subrange(0, i as int)),
                    ),
                decreases m - i,
            {
                if i > 0 {
                    push_char(out, ',');
                }
                proof {
                    lemma_jweight_items_bound(items@, i as int);
                }
                write_json(out, &items[i]);
                proof {
                    lemma_deep_items_snoc(items@.subrange(0, i + 1 as int));
                    assert(items@.subrange(0, i + 1 as int).drop_last() =~= items@.subrange(
                        0,
                        i as int,
                    ));
                    if i > 0 {
                        lemma_deep_items_len(items@.subrange(0, i as int));
                        lemma_ser_items_snoc(
                            deep_items(items@.subrange(0, i as int)),
                            deep(items@[i as int]),
                        );
                    }
                    assert(out@ =~= old(out)@ + seq!['['] + ser_items(
                        deep_items(items@.subrange(0, i + 1 as int)),
                    ));
                }
                i += 1;
            }
            push_char(out, ']');
            proof {
                assert(items@.subrange(0, items@.len() as int) =~= items@);
                assert(out@ =~= old(out)@ + ser(v@));
            }
        },
        JsonValue::Obj(ms) => {
            push_char(out, '{');
            let m: usize = ms.len();
            let mut i: usize = 0;
            while i < m
                invariant
                    0 <= i <= m,
                    m == ms@.len(),
                    i == 0 ==> out@ == old(out)@ + seq!['{'],
                    i > 0 ==> out@ == old(out)@ + seq!['{'] + ser_members(
                        deep_members(ms@.subrange(0, i as int)),
                    ),
                decreases m - i,
            {
                if i > 0 {
                    push_char(out, ',');
                }
                write_json_string(out, ms[i].0.as_str());
                push_char(out, ':');
                proof {
                    lemma_jweight_members_bound(ms@, i as int);
                }
                write_json(out, &ms[i].1);
                proof {
                    lemma_deep_members_snoc(ms@.subrange(0, i + 1 as int));
                    assert(ms@.subrange(0, i + 1 as int).drop_last() =~= ms@.subrange(0, i as int));
                    if i > 0 {
                        lemma_deep_members_len(ms@.subrange(0, i as int));
                        lemma_ser_members_snoc(
                            deep_members(ms@.subrange(0, i as int)),
                            ms@[i as int].0@,
                            deep(ms@[i as int].1),
                        );
                    }
                    assert(out@ =~= old(out)@ + seq!['{'] + ser_members(
                        deep_members(ms@.subrange(0, i + 1 as int)),
                    ));
                }
                i += 1;
            }
            push_char(out, '}');
            proof {
                assert(ms@.subrange(0, ms@.len() as int) =~= ms@);
                assert(out@ =~= old(out)@ + ser(v@));
            }
        },
    }
}

/// The canonical rendering of `v` as a string.
pub fn to_json_string(v: &JsonValue) -> (r: String)
    ensures
        r@ == ser(v@),
{
    let mut out: String = String::new();
    write_json(&mut out, v);
    assert(out@ =~= ser(v@));
    out
}

pub proof fn lemma_deep_items_len(s: Seq<JsonValue>)
    ensures
        deep_items(s).len() == s.len(),
        forall|i: int| 0 <= i < s.len() ==> deep_items(s)[i] == deep(#[trigger] s[i]),
    decreases s,
{
    if s.len() > 0 {
        lemma_deep_items_len(s.drop_first());
        assert forall|i: int| 0 <= i < s.len() implies deep_items(s)[i] == deep(#[trigger] s[i]) by {
            if i > 0 {
                assert(deep_items(s)[i] == deep_items(s.drop_first())[i - 1]);
                assert(s.drop_first()[i - 1] == s[i]);
            }
        }
    }
}

pub proof fn lemma_deep_items_snoc(s: Seq<JsonValue>)
    requires
        s.len() >= 1,
    ensures
        deep_items(s) == deep_items(s.drop_last()).push(deep(s.last())),
    decreases s.len(),
{
    if s.len() == 1 {
        assert(s.drop_first() =~= Seq::<JsonValue>::empty());
        assert(s.drop_last() =~= Seq::<JsonValue>::empty());
        assert(deep_items(s) =~= deep_items(s.drop_last()).push(deep(s.last())));
    } else {
        lemma_deep_items_snoc(s.drop_first());
        assert(s.drop_first().drop_last() =~= s.drop_last().drop_first());
        assert(s.drop_first().last() == s.last());
        assert(s.drop_last()[0] == s[0]);
        assert(deep_items(s) =~= deep_items(s.drop_last()).push(deep(s.last())));
    }
}

pub proof fn lemma_deep_members_len(s: Seq<(String, JsonValue)>)
    ensures
        deep_members(s).len() == s.len(),
        forall|i: int| 0 <= i < s.len() ==> deep_members(s)[i] == ((#[trigger] s[i]).0@, deep(
            s[i].1,
        )),
    decreases s,
{
    if s.len() > 0 {
        lemma_deep_members_len(s.drop_first());
        assert forall|i: int| 0 <= i < s.len() implies deep_members(s)[i] == ((#[trigger] s[i]).0@,
        deep(s[i].1)) by {
            if i > 0 {
                assert(deep_members(s)[i] == deep_members(s.drop_first())[i - 1]);
                assert(s.drop_first()[i - 1] == s[i]);
            }
        }
    }
}

pub proof fn lemma_deep_members_snoc(s: Seq<(String, JsonValue)>)
    requires
        s.len() >= 1,
    ensures
        deep_members(s) == deep_members(s.drop_last()).push((s.last().0@, deep(s.last().1))),
    decreases s.len(),
{
    if s.len() == 1 {
        assert(s.drop_first() =~= Seq::<(String, JsonValue)>::empty());
        assert(s.drop_last() =~= Seq::<(String, JsonValue)>::empty());
        assert(deep_members(s) =~= deep_members(s.drop_last()).push(
            (s.last().0@, deep(s.last().1)),
        ));
    } else {
        lemma_deep_members_snoc(s.drop_first());
        assert(s.drop_first().drop_last() =~= s.drop_last().drop_first());
        assert(s.drop_first().last() == s.last());
        assert(s.drop_last()[0] == s[0]);
        assert(deep_members(s) =~= deep_members(s.drop_last()).push(
            (s.last().0@, deep(s.last().1)),
        ));
    }
}

} // verus!

verus! {

// ------------------------------------------------------------------
// Parsing: specification
// ------------------------------------------------------------------

pub open spec fn is_digit(c: char) -> bool {
    48 <= (c as u32) && (c as u32) <= 57
}

/// The numeric value of a digit character.
pub open spec fn dval(c: char) -> int {
    (c as u32) as int - 48
}

/// The character named by an escape, if the escape is recognised.
pub open spec fn unesc(c: char) -> Option<char> {
    if c == '"' {
        Some('"')
    } else if c == '\\' {
        Some('\\')
    } else if c == '/' {
        Some('/')
    } else if c == 'n' {
        Some('\n')
    } else if c == 'r' {
        Some('\r')
    } else if c == 't' {
        Some('\t')
    } else if c == 'b' {
        Some('\u{0008}')
    } else if c == 'f' {
        Some('\u{000C}')
    } else {
        None
    }
}

/// Parse a string body starting just after the opening quote; yields the
/// decoded characters and the position just after the closing quote.
pub open spec fn p_str_body(s: Seq<char>, i: int) -> Option<(Seq<char>, int)>
    decreases s.len() - i,
{
    if i < 0 || i >= s.len() {
        None
    } else if s[i] == '"' {
        Some((Seq::empty(), i + 1))
    } else if s[i] == '\\' {
        if i + 1 < s.len() {
            match unesc(s[i + 1]) {
                Some(c) => match p_str_body(s, i + 2) {
                    Some((t, j)) => Some((seq![c] + t, j)),
                    None => None,
                },
                None => None,
            }
        } else {
            None
        }
    } else {
        match p_str_body(s, i + 1) {
            Some((t, j)) => Some((seq![s[i]] + t, j)),
            None => None,
        }
    }
}

/// The end of the run of digits starting at `i`.
pub open spec fn digit_run_end(s: Seq<char>, i: int) -> int
    decreases s.len() - i,
{
    if 0 <= i && i < s.len() && is_digit(s[i]) {
        digit_run_end(s, i + 1)
    } else {
        i
    }
}

/// The value of the digits in `s[i..j]`.
pub open spec fn digits_val(s: Seq<char>, i: int, j: int) -> int
    decreases j - i,
{
    if i < j {
        digits_val(s, i, j - 1) * 10 + dval(s[j - 1])
    } else {
        0
    }
}

pub open spec fn pow10(k: nat) -> int
    decreases k,
{
    if k == 0 {
        1
    } else {
        10 * pow10((k - 1) as nat)
    }
}

/// Parse one value at `i`. The fuel only bounds the recursion; `jsize` of
/// the parsed value is always enough of it.
pub open spec fn p_value(s: Seq<char>, i: int, fuel: nat) -> Option<(Jv, int)>
    decreases fuel,
{
    if fuel == 0 {
        None
    } else if i < 0 || i >= s.len() {
        None
    } else {
        let c = s[i];
        if c == 'n' {
            if i + 4 <= s.len() && s.subrange(i, i + 4) == seq!['n', 'u', 'l', 'l'] {
                Some((Jv::Null, i + 4))
            } else {
                None
            }
        } else if c == 't' {
            if i + 4 <= s.len() && s.subrange(i, i + 4) == seq!['t', 'r', 'u', 'e'] {
                Some((Jv::Bool(true), i + 4))
            } else {
                None
            }
        } else if c == 'f' {
            if i + 5 <= s.len() && s.subrange(i, i + 5) == seq!['f', 'a', 'l', 's', 'e'] {
                Some((Jv::Bool(false), i + 5))
            } else {
                None
            }
        } else if c == '"' {
            match p_str_body(s, i + 1) {
                Some((t, j)) => Some((Jv::Str(t), j)),
                None => None,
            }
        } else if c == '[' {
            if i + 1 < s.len() && s[i + 1] == ']' {
                Some((Jv::Arr(Seq::empty()), i + 2))
            } else {
                match p_items(s, i + 1, (fuel - 1) as nat) {
                    Some((vs, j)) => Some((Jv::Arr(vs), j)),
                    None => None,
                }
            }
        } else if c == '{' {
            if i + 1 < s.len() && s[i + 1] == '}' {
                Some((Jv::Obj(Seq::empty()), i + 2))
            } else {
                match p_members(s, i + 1, (fuel - 1) as nat) {
                    Some((ms, j)) => Some((Jv::Obj(ms), j)),
                    None => None,
                }
            }
        } else if c == '-' || is_digit(c) {
            let d0 = if c == '-' {
                i + 1
            } else {
                i
            };
            let j = digit_run_end(s, d0);
            if j == d0 || j - d0 > 19 {
                None
            } else {
                let m = digits_val(s, d0, j);
                if c == '-' {
                    if -m < i64::MIN as int {
                        None
                    } else {
                        Some((Jv::Int(-m), j))
                    }
                } else {
                    if m > i64::MAX as int {
                        None
                    } else {
                        Some((Jv::Int(m), j))
                    }
                }
            }
        } else {
            None
        }
    }
}

/// Parse the items of a non-empty array, the closing bracket included.
pub open spec fn p_items(s: Seq<char>, i: int, fuel: nat) -> Option<(Seq<Jv>, int)>
    decreases fuel,
{
    if fuel == 0 {
        None
    } else {
        match p_value(s, i, (fuel - 1) as nat) {
            Some((v, j)) => if 0 <= j && j < s.len() {
                if s[j] == ',' {
                    match p_items(s, j + 1, (fuel - 1) as nat) {
                        Some((vs, j2)) => Some((seq![v] + vs, j2)),
                        None => None,
                    }
                } else if s[j] == ']' {
                    Some((seq![v], j + 1))
                } else {
                    None
                }
            } else {
                None
            },
            None => None,
        }
    }
}

/// Parse the members of a non-empty object, the closing brace included.
pub open spec fn p_members(s: Seq<char>, i: int, fuel: nat) -> Option<
    (Seq<(Seq<char>, Jv)>, int),
>
    decreases fuel,
{
    if fuel == 0 {
        None
    } else if 0 <= i && i < s.len() && s[i] == '"' {
        match p_str_body(s, i + 1) {
            Some((k, j)) => if 0 <= j && j < s.len() && s[j] == ':' {
                match p_value(s, j + 1, (fuel - 1) as nat) {
                    Some((v, j2)) => if 0 <= j2 && j2 < s.len() {
                        if s[j2] == ',' {
                            match p_members(s, j2 + 1, (fuel - 1) as nat) {
                                Some((ms, j3)) => Some((seq![(k, v)] + ms, j3)),
                                None => None,
                            }
                        } else if s[j2] == '}' {
                            Some((seq![(k, v)], j2 + 1))
                        } else {
                            None
                        }
                    } else {
                        None
                    },
                    None => None,
                }
            } else {
                None
            },
            None => None,
        }
    } else {
        None
    }
}

/// Parse a whole document: one value covering the entire input.
pub open spec fn p_doc(s: Seq<char>) -> Option<Jv> {
    match p_value(s, 0, s.len() as nat) {
        Some((v, j)) => if j == s.len() {
            Some(v)
        } else {
            None
        },
        None => None,
    }
}

} // verus!

verus! {

// ------------------------------------------------------------------
// Round trip: parsing a canonical rendering gives the value back
// ------------------------------------------------------------------

broadcast use vstd::seq_lib::group_seq_properties;

proof fn lemma_digit_char(d: int)
    requires
        0 <= d <= 9,
    ensures
        is_digit(crate::strutil::digit_char(d)),
        dval(crate::strutil::digit_char(d)) == d,
{
}

/// Every character of a decimal rendering is a digit.
proof fn lemma_dec_digits_digits(n: nat)
    ensures
        dec_digits_all(n),
    decreases n,
{
    if n < 10 {
        lemma_digit_char(n as int);
    } else {
        lemma_dec_digits_digits(n / 10);
        lemma_digit_char((n % 10) as int);
        assert forall|k: int| 0 <= k < crate::strutil::dec_digits(n).len() implies is_digit(
            #[trigger] crate::strutil::dec_digits(n)[k],
        ) by {
            if k < crate::strutil::dec_digits(n / 10).len() {
                assert(crate::strutil::dec_digits(n)[k] == crate::strutil::dec_digits(n / 10)[k]);
            }
        }
    }
}

pub open spec fn dec_digits_all(n: nat) -> bool {
    crate::strutil::dec_digits(n).len() >= 1 && forall|k: int|
        0 <= k < crate::strutil::dec_digits(n).len() ==> is_digit(
            #[trigger] crate::strutil::dec_digits(n)[k],
        )
}

/// A run of digits bounded by a non-digit ends exactly at the bound.
proof fn lemma_run_end(s: Seq<char>, i: int, j: int)
    requires
        0 <= i <= j <= s.len(),
        forall|k: int| i <= k < j ==> is_digit(#[trigger] s[k]),
        j == s.len() || !is_digit(s[j]),
    ensures
        digit_run_end(s, i) == j,
    decreases j - i,
{
    if i < j {
        lemma_run_end(s, i + 1, j);
    }
}

/// The value of a rendered number is the number.
proof fn lemma_digits_val_of_dec(n: nat, s: Seq<char>, i: int)
    requires
        0 <= i,
        i + crate::strutil::dec_digits(n).len() <= s.len(),
        s.subrange(i, i + crate::strutil::dec_digits(n).len() as int)
            == crate::strutil::dec_digits(n),
    ensures
        digits_val(s, i, i + crate::strutil::dec_digits(n).len() as int) == n,
    decreases n,
{
    let d = crate::strutil::dec_digits(n);
    let l = d.len() as int;
    if n < 10 {
        assert(s[i] == d[0]);
        lemma_digit_char(n as int);
        assert(digits_val(s, i, i + 1) == digits_val(s, i, i) * 10 + dval(s[i]));
    } else {
        let dh = crate::strutil::dec_digits(n / 10);
        let lh = dh.len() as int;
        assert(d == dh.push(crate::strutil::digit_char((n % 10) as int)));
        assert(l == lh + 1);
        assert(s.subrange(i, i + lh) =~= dh) by {
            assert forall|k: int| 0 <= k < lh implies s.subrange(i, i + lh)[k] == dh[k] by {
                assert(s[i + k] == s.subrange(i, i + l)[k]);
                assert(d[k] == dh[k]);
            }
        }
        lemma_digits_val_of_dec(n / 10, s, i);
        assert(s[i + l - 1] == d[l - 1]);
        assert(d[l - 1] == crate::strutil::digit_char((n % 10) as int));
        lemma_digit_char((n % 10) as int);
        assert(digits_val(s, i, i + l) == digits_val(s, i, i + l - 1) * 10 + dval(s[i + l - 1]));
        vstd::arithmetic::div_mod::lemma_fundamental_div_mod(n as int, 10);
    }
}

proof fn lemma_pow10_pos(k: nat)
    ensures
        pow10(k) >= 1,
    decreases k,
{
    if k > 0 {
        lemma_pow10_pos((k - 1) as nat);
    }
}

/// The value of `k` digits is below `10^k`.
proof fn lemma_digits_val_bound(s: Seq<char>, i: int, j: int)
    requires
        0 <= i <= j <= s.len(),
        forall|k: int| i <= k < j ==> is_digit(#[trigger] s[k]),
    ensures
        0 <= digits_val(s, i, j) < pow10((j - i) as nat),
    decreases j - i,
{
    if i < j {
        lemma_digits_val_bound(s, i, j - 1);
        let v0 = digits_val(s, i, j - 1);
        let p = pow10((j - 1 - i) as nat);
        assert(pow10((j - i) as nat) == 10 * p);
        assert(0 <= dval(s[j - 1]) <= 9);
        assert(v0 * 10 + dval(s[j - 1]) < 10 * p) by (nonlinear_arith)
            requires
                v0 < p,
                0 <= v0,
                0 <= dval(s[j - 1]) <= 9,
        ;
        assert(0 <= v0 * 10 + dval(s[j - 1])) by (nonlinear_arith)
            requires
                0 <= v0,
                0 <= dval(s[j - 1]),
        ;
    }
}

/// A rendered number has at most nineteen digits.
proof fn lemma_dec_digits_len(n: nat, k: nat)
    requires
        k >= 1,
        n < pow10(k),
    ensures
        crate::strutil::dec_digits(n).len() <= k,
    decreases n,
{
    if n < 10 {
    } else {
        lemma_pow10_pos((k - 1) as nat);
        if k == 1 {
            assert(pow10(1) == 10);
            assert(false);
        }
        assert(pow10(k) == 10 * pow10((k - 1) as nat));
        assert(n / 10 < pow10((k - 1) as nat)) by (nonlinear_arith)
            requires
                n < 10 * pow10((k - 1) as nat),
                pow10((k - 1) as nat) >= 1,
        ;
        assert(n / 10 < n) by (nonlinear_arith)
            requires
                n >= 10,
        ;
        lemma_dec_digits_len(n / 10, (k - 1) as nat);
    }
}

/// Parsing the escaped body of `t`, closing quote appended, gives `t` back.
proof fn lemma_p_str_of_esc(t: Seq<char>, s: Seq<char>, i: int)
    requires
        0 <= i,
        i + esc_str(t).len() + 1 <= s.len(),
        s.subrange(i, i + esc_str(t).len() as int) == esc_str(t),
        s[i + esc_str(t).len() as int] == '"',
    ensures
        p_str_body(s, i) == Some((t, i + esc_str(t).len() + 1)),
    decreases t.len(),
{
    let e = esc_str(t);
    let l = e.len() as int;
    if t.len() == 0 {
        assert(s[i] == '"');
    } else {
        let c = t[0];
        let rest = t.drop_first();
        assert(e == esc_char(c) + esc_str(rest));
        let ec = esc_char(c);
        let er = esc_str(rest);
        let cl = ec.len() as int;
        assert forall|k: int| 0 <= k < l implies s[i + k] == e[k] by {
            assert(s.subrange(i, i + l)[k] == e[k]);
        }
        assert(s.subrange(i + cl, i + cl + er.len() as int) =~= er) by {
            assert forall|k: int| 0 <= k < er.len() implies s.subrange(
                i + cl,
                i + cl + er.len() as int,
            )[k] == er[k] by {
                assert(s[i + cl + k] == e[cl + k]);
                assert(e[cl + k] == er[k]);
            }
        }
        assert(s[i + cl + er.len() as int] == '"');
        lemma_p_str_of_esc(rest, s, i + cl);
        assert(e[0] == ec[0]);
        if ec.len() == 1 {
            assert(ec[0] == c);
            assert(s[i] == e[0]);
            assert(s[i] == c);
            assert(c != '"' && c != '\\');
            assert(p_str_body(s, i) == Some((seq![c] + rest, i + l + 1)));
            assert(seq![c] + rest =~= t);
        } else {
            assert(ec[0] == '\\');
            assert(s[i] == e[0]);
            assert(s[i] == '\\');
            assert(e[1] == ec[1]);
            assert(s[i + 1] == ec[1]);
            assert(unesc(ec[1]) == Some(c));
            assert(p_str_body(s, i) == Some((seq![c] + rest, i + l + 1)));
            assert(seq![c] + rest =~= t);
        }
    }
}

} // verus!

verus! {

/// Fuel that certainly suffices to parse the rendering of `v`.
pub open spec fn jsize(v: Jv) -> nat
    decreases v,
{
    match v {
        Jv::Arr(items) => 1 + jsize_items(items),
        Jv::Obj(ms) => 1 + jsize_members(ms),
        _ => 1,
    }
}

pub open spec fn jsize_items(items: Seq<Jv>) -> nat
    decreases items,
{
    if items.len() == 0 {
        0
    } else {
        1 + jsize(items[0]) + jsize_items(items.drop_first())
    }
}

pub open spec fn jsize_members(ms: Seq<(Seq<char>, Jv)>) -> nat
    decreases ms,
{
    if ms.len() == 0 {
        0
    } else {
        1 + jsize(ms[0].1) + jsize_members(ms.drop_first())
    }
}

/// The needed fuel never exceeds the rendering's length.
proof fn lemma_jsize_le(v: Jv)
    ensures
        jsize(v) <= ser(v).len(),
    decreases jsize(v),
{
    match v {
        Jv::Int(n) => {
            assert(crate::strutil::dec_digits(if n < 0 { (-n) as nat } else { n as nat }).len()
                >= 1);
        },
        Jv::Arr(items) => {
            if items.len() > 0 {
                lemma_jsize_items_le(items);
            }
        },
        Jv::Obj(ms) => {
            if ms.len() > 0 {
                lemma_jsize_members_le(ms);
            }
        },
        _ => {},
    }
}

proof fn lemma_jsize_items_le(items: Seq<Jv>)
    requires
        items.len() >= 1,
    ensures
        jsize_items(items) <= ser_items(items).len() + 1,
    decreases jsize_items(items),
{
    assert(jsize(items[0]) < jsize_items(items));
    lemma_jsize_le(items[0]);
    if items.len() > 1 {
        assert(jsize_items(items.drop_first()) < jsize_items(items));
        lemma_jsize_items_le(items.drop_first());
    }
}

proof fn lemma_jsize_members_le(ms: Seq<(Seq<char>, Jv)>)
    requires
        ms.len() >= 1,
    ensures
        jsize_members(ms) <= ser_members(ms).len() + 1,
    decreases jsize_members(ms),
{
    assert(jsize(ms[0].1) < jsize_members(ms));
    lemma_jsize_le(ms[0].1);
    if ms.len() > 1 {
        assert(jsize_members(ms.drop_first()) < jsize_members(ms));
        lemma_jsize_members_le(ms.drop_first());
    }
}

/// Every rendering opens with a character that selects its parse branch.
proof fn lemma_ser_first(v: Jv)
    ensures
        ser(v).len() >= 1,
        ser(v)[0] == 'n' || ser(v)[0] == 't' || ser(v)[0] == 'f' || ser(v)[0] == '"' || ser(
            v,
        )[0] == '[' || ser(v)[0] == '{' || ser(v)[0] == '-' || is_digit(ser(v)[0]),
{
    match v {
        Jv::Int(n) => {
            if n < 0 {
                assert(ser(v)[0] == (seq!['-'] + crate::strutil::dec_digits((-n) as nat))[0]);
            } else {
                lemma_dec_digits_digits(n as nat);
            }
        },
        Jv::Str(t) => {
            assert(ser(v)[0] == (seq!['"'] + esc_str(t) + seq!['"'])[0]);
        },
        Jv::Arr(items) => {
            assert(ser(v)[0] == (seq!['['] + ser_items(items) + seq![']'])[0]);
        },
        Jv::Obj(ms) => {
            assert(ser(v)[0] == (seq!['{'] + ser_members(ms) + seq!['}'])[0]);
        },
        _ => {},
    }
}

/// Parsing at the start of a rendering of `v` yields `v` and stops at its
/// end, provided the next character cannot extend a number.
proof fn lemma_p_value_of_ser(v: Jv, s: Seq<char>, i: int, fuel: nat)
    requires
        jv_wf(v),
        0 <= i,
        i + ser(v).len() <= s.len(),
        s.subrange(i, i + ser(v).len() as int) == ser(v),
        i + ser(v).len() == s.len() || !is_digit(s[i + ser(v).len() as int]),
        fuel >= jsize(v),
    ensures
        p_value(s, i, fuel) == Some((v, i + ser(v).len())),
    decreases jsize(v),
{
    let e = ser(v);
    let l = e.len() as int;
    lemma_ser_first(v);
    assert forall|k: int| 0 <= k < l implies s[i + k] == e[k] by {
        assert(s.subrange(i, i + l)[k] == e[k]);
    }
    assert(s[i] == e[0]);
    match v {
        Jv::Null => {
            assert(s.subrange(i, i + 4) == seq!['n', 'u', 'l', 'l']);
        },
        Jv::Bool(b) => {
            if b {
                assert(s.subrange(i, i + 4) == seq!['t', 'r', 'u', 'e']);
            } else {
                assert(s.subrange(i, i + 5) == seq!['f', 'a', 'l', 's', 'e']);
            }
        },
        Jv::Int(n) => {
            let m: nat = if n < 0 {
                (-n) as nat
            } else {
                n as nat
            };
            let dd = crate::strutil::dec_digits(m);
            let dl = dd.len() as int;
            let d0 = if n < 0 {
                i + 1
            } else {
                i
            };
            lemma_dec_digits_digits(m);
            if n < 0 {
                assert(e == seq!['-'] + dd);
                assert(s[i] == '-');
            }
            assert(d0 + dl == i + l);
            assert(s.subrange(d0, d0 + dl) =~= dd) by {
                assert forall|k: int| 0 <= k < dl implies s.subrange(d0, d0 + dl)[k] == dd[k] by {
                    if n < 0 {
                        assert(s[d0 + k] == e[k + 1]);
                        assert(e[k + 1] == dd[k]);
                    } else {
                        assert(s[d0 + k] == e[k]);
                    }
                }
            }
            assert(forall|k: int| d0 <= k < d0 + dl ==> is_digit(#[trigger] s[k])) by {
                assert forall|k: int| d0 <= k < d0 + dl implies is_digit(#[trigger] s[k]) by {
                    assert(s[k] == s.subrange(d0, d0 + dl)[k - d0]);
                }
            }
            lemma_run_end(s, d0, d0 + dl);
            reveal_with_fuel(pow10, 21);
            assert(pow10(19) == 10_000_000_000_000_000_000);
            lemma_dec_digits_len(m, 19);
            lemma_digits_val_of_dec(m, s, d0);
            if n < 0 {
                assert(p_value(s, i, fuel) == Some((Jv::Int(-(m as int)), d0 + dl)));
                assert(-(m as int) == n);
            } else {
                assert(!(s[i] == 'n') && !(s[i] == 't') && !(s[i] == 'f'));
                assert(p_value(s, i, fuel) == Some((Jv::Int(m as int), d0 + dl)));
            }
        },
        Jv::Str(t) => {
            assert(e == seq!['"'] + esc_str(t) + seq!['"']);
            let el = esc_str(t).len() as int;
            assert(s.subrange(i + 1, i + 1 + el) =~= esc_str(t)) by {
                assert forall|k: int| 0 <= k < el implies s.subrange(i + 1, i + 1 + el)[k]
                    == esc_str(t)[k] by {
                    assert(s[i + 1 + k] == e[k + 1]);
                    assert(e[k + 1] == esc_str(t)[k]);
                }
            }
            assert(s[i + 1 + el] == e[l - 1]);
            assert(e[l - 1] == '"');
            lemma_p_str_of_esc(t, s, i + 1);
        },
        Jv::Arr(items) => {
            assert(e == seq!['['] + ser_items(items) + seq![']']);
            let il = ser_items(items).len() as int;
            assert(s[i] == '[');
            assert(e[l - 1] == ']');
            assert(s[i + 1 + il] == ']');
            if items.len() == 0 {
                assert(l == 2);
                assert(s[i + 1] == ']');
            } else {
                assert(ser_items(items)[0] == ser(items[0])[0]) by {
                    if items.len() == 1 {
                    } else {
                        assert(ser_items(items) == ser(items[0]) + seq![','] + ser_items(
                            items.drop_first(),
                        ));
                        lemma_ser_first(items[0]);
                    }
                }
                lemma_ser_first(items[0]);
                assert(s[i + 1] == e[1]);
                assert(e[1] == ser_items(items)[0]);
                assert(s[i + 1] != ']');
                assert(s.subrange(i + 1, i + 1 + il) =~= ser_items(items)) by {
                    assert forall|k: int| 0 <= k < il implies s.subrange(i + 1, i + 1 + il)[k]
                        == ser_items(items)[k] by {
                        assert(s[i + 1 + k] == e[k + 1]);
                        assert(e[k + 1] == ser_items(items)[k]);
                    }
                }
                assert(forall|k: int|
                    0 <= k < items.len() ==> jv_wf(#[trigger] items[k]));
                lemma_p_items_of_ser(items, s, i + 1, (fuel - 1) as nat);
                assert(p_value(s, i, fuel) == Some((Jv::Arr(items), i + 1 + il + 1)));
            }
        },
        Jv::Obj(ms) => {
            assert(e == seq!['{'] + ser_members(ms) + seq!['}']);
            let il = ser_members(ms).len() as int;
            assert(s[i] == '{');
            assert(e[l - 1] == '}');
            assert(s[i + 1 + il] == '}');
            if ms.len() == 0 {
                assert(l == 2);
                assert(s[i + 1] == '}');
            } else {
                assert(ser_members(ms)[0] == '"') by {
                    if ms.len() == 1 {
                        assert(ser_members(ms) == ser_str(ms[0].0) + seq![':'] + ser(ms[0].1));
                        assert(ser_members(ms)[0] == ser_str(ms[0].0)[0]);
                        assert(ser_str(ms[0].0)[0] == '"');
                    } else {
                        assert(ser_members(ms) == ser_str(ms[0].0) + seq![':'] + ser(ms[0].1)
                            + seq![','] + ser_members(ms.drop_first()));
                        assert(ser_members(ms)[0] == ser_str(ms[0].0)[0]);
                        assert(ser_str(ms[0].0)[0] == '"');
                    }
                }
                assert(s[i + 1] == e[1]);
                assert(e[1] == ser_members(ms)[0]);
                assert(s[i + 1] != '}');
                assert(s.subrange(i + 1, i + 1 + il) =~= ser_members(ms)) by {
                    assert forall|k: int| 0 <= k < il implies s.subrange(i + 1, i + 1 + il)[k]
                        == ser_members(ms)[k] by {
                        assert(s[i + 1 + k] == e[k + 1]);
                        assert(e[k + 1] == ser_members(ms)[k]);
                    }
                }
                assert(forall|k: int| 0 <= k < ms.len() ==> jv_wf(#[trigger] ms[k].1));
                lemma_p_members_of_ser(ms, s, i + 1, (fuel - 1) as nat);
                assert(p_value(s, i, fuel) == Some((Jv::Obj(ms), i + 1 + il + 1)));
            }
        },
    }
}

/// Parsing rendered items, with the closing bracket just after, yields
/// the items.
proof fn lemma_p_items_of_ser(items: Seq<Jv>, s: Seq<char>, i: int, fuel: nat)
    requires
        items.len() >= 1,
        forall|k: int| 0 <= k < items.len() ==> jv_wf(#[trigger] items[k]),
        0 <= i,
        i + ser_items(items).len() < s.len(),
        s.subrange(i, i + ser_items(items).len() as int) == ser_items(items),
        s[i + ser_items(items).len() as int] == ']',
        fuel >= jsize_items(items),
    ensures
        p_items(s, i, fuel) == Some((items, i + ser_items(items).len() + 1)),
    decreases jsize_items(items),
{
    let e = ser_items(items);
    let l = e.len() as int;
    assert forall|k: int| 0 <= k < l implies s[i + k] == e[k] by {
        assert(s.subrange(i, i + l)[k] == e[k]);
    }
    let v0 = items[0];
    let e0 = ser(v0);
    let l0 = e0.len() as int;
    if items.len() == 1 {
        assert(e == e0);
        assert(s.subrange(i, i + l0) == e0);
        lemma_p_value_of_ser(v0, s, i, (fuel - 1) as nat);
        assert(s[i + l0] == ']');
        assert(p_items(s, i, fuel) == Some((seq![v0], i + l0 + 1)));
        assert(seq![v0] =~= items);
    } else {
        let tail = items.drop_first();
        let et = ser_items(tail);
        assert(e == e0 + seq![','] + et);
        assert(s.subrange(i, i + l0) =~= e0) by {
            assert forall|k: int| 0 <= k < l0 implies s.subrange(i, i + l0)[k] == e0[k] by {
                assert(s[i + k] == e[k]);
                assert(e[k] == e0[k]);
            }
        }
        assert(s[i + l0] == e[l0]);
        assert(e[l0] == ',');
        lemma_p_value_of_ser(v0, s, i, (fuel - 1) as nat);
        let j = i + l0;
        assert(s.subrange(j + 1, j + 1 + et.len() as int) =~= et) by {
            assert forall|k: int| 0 <= k < et.len() implies s.subrange(
                j + 1,
                j + 1 + et.len() as int,
            )[k] == et[k] by {
                assert(s[j + 1 + k] == e[l0 + 1 + k]);
                assert(e[l0 + 1 + k] == et[k]);
            }
        }
        assert(s[j + 1 + et.len() as int] == ']');
        assert(forall|k: int| 0 <= k < tail.len() ==> jv_wf(#[trigger] tail[k])) by {
            assert forall|k: int| 0 <= k < tail.len() implies jv_wf(#[trigger] tail[k]) by {
                assert(tail[k] == items[k + 1]);
            }
        }
        assert(jsize_items(tail) < jsize_items(items));
        lemma_p_items_of_ser(tail, s, j + 1, (fuel - 1) as nat);
        assert(p_items(s, i, fuel) == Some((seq![v0] + tail, j + 1 + et.len() + 1)));
        assert(seq![v0] + tail =~= items);
    }
}

/// Parsing rendered members, with the closing brace just after, yields
/// the members.
proof fn lemma_p_members_of_ser(ms: Seq<(Seq<char>, Jv)>, s: Seq<char>, i: int, fuel: nat)
    requires
        ms.len() >= 1,
        forall|k: int| 0 <= k < ms.len() ==> jv_wf(#[trigger] ms[k].1),
        0 <= i,
        i + ser_members(ms).len() < s.len(),
        s.subrange(i, i + ser_members(ms).len() as int) == ser_members(ms),
        s[i + ser_members(ms).len() as int] == '}',
        fuel >= jsize_members(ms),
    ensures
        p_members(s, i, fuel) == Some((ms, i + ser_members(ms).len() + 1)),
    decreases jsize_members(ms),
{
    let e = ser_members(ms);
    let l = e.len() as int;
    assert forall|k: int| 0 <= k < l implies s[i + k] == e[k] by {
        assert(s.subrange(i, i + l)[k] == e[k]);
    }
    let k0 = ms[0].0;
    let v0 = ms[0].1;
    let ek = ser_str(k0);
    let lk = ek.len() as int;
    let e0 = ser(v0);
    let l0 = e0.len() as int;
    let head = ek + seq![':'] + e0;
    if ms.len() == 1 {
        assert(e == head);
    } else {
        assert(e == head + seq![','] + ser_members(ms.drop_first()));
    }
    assert forall|k: int| 0 <= k < head.len() implies s[i + k] == head[k] by {
        assert(e[k] == head[k]);
    }
    assert(s[i] == head[0]);
    assert(head[0] == ek[0]);
    assert(ek[0] == '"');
    let el = esc_str(k0).len() as int;
    assert(s.subrange(i + 1, i + 1 + el) =~= esc_str(k0)) by {
        assert forall|k: int| 0 <= k < el implies s.subrange(i + 1, i + 1 + el)[k] == esc_str(
            k0,
        )[k] by {
            assert(s[i + 1 + k] == head[k + 1]);
            assert(head[k + 1] == ek[k + 1]);
            assert(ek[k + 1] == esc_str(k0)[k]);
        }
    }
    assert(s[i + 1 + el] == head[lk - 1] && head[lk - 1] == ek[lk - 1] && ek[lk - 1] == '"');
    lemma_p_str_of_esc(k0, s, i + 1);
    let j = i + lk;
    assert(s[j] == head[lk]);
    assert(head[lk] == ':');
    assert(s.subrange(j + 1, j + 1 + l0) =~= e0) by {
        assert forall|k: int| 0 <= k < l0 implies s.subrange(j + 1, j + 1 + l0)[k] == e0[k] by {
            assert(s[j + 1 + k] == head[lk + 1 + k]);
            assert(head[lk + 1 + k] == e0[k]);
        }
    }
    assert(jsize(v0) < jsize_members(ms));
    if ms.len() == 1 {
        assert(s[j + 1 + l0] == '}');
        lemma_p_value_of_ser(v0, s, j + 1, (fuel - 1) as nat);
        assert(p_members(s, i, fuel) == Some((seq![(k0, v0)], j + 1 + l0 + 1)));
        assert(seq![(k0, v0)] =~= ms);
    } else {
        let tail = ms.drop_first();
        let et = ser_members(tail);
        assert(s[j + 1 + l0] == e[head.len() as int]);
        assert(e[head.len() as int] == ',');
        lemma_p_value_of_ser(v0, s, j + 1, (fuel - 1) as nat);
        let j2 = j + 1 + l0;
        assert(s.subrange(j2 + 1, j2 + 1 + et.len() as int) =~= et) by {
            assert forall|k: int| 0 <= k < et.len() implies s.subrange(
                j2 + 1,
                j2 + 1 + et.len() as int,
            )[k] == et[k] by {
                assert(s[j2 + 1 + k] == e[head.len() + 1 + k]);
                assert(e[head.len() + 1 + k] == et[k]);
            }
        }
        assert(s[j2 + 1 + et.len() as int] == '}');
        assert(forall|k: int| 0 <= k < tail.len() ==> jv_wf(#[trigger] tail[k].1)) by {
            assert forall|k: int| 0 <= k < tail.len() implies jv_wf(#[trigger] tail[k].1) by {
                assert(tail[k] == ms[k + 1]);
            }
        }
        assert(jsize_members(tail) < jsize_members(ms));
        lemma_p_members_of_ser(tail, s, j2 + 1, (fuel - 1) as nat);
        assert(p_members(s, i, fuel) == Some((seq![(k0, v0)] + tail, j2 + 1 + et.len() + 1)));
        assert(seq![(k0, v0)] + tail =~= ms);
    }
}

/// Round trip: the canonical rendering of any well-formed value parses
/// back to exactly that value, with nothing left over.
pub proof fn lemma_round_trip(v: Jv)
    requires
        jv_wf(v),
    ensures
        p_doc(ser(v)) == Some(v),
{
    let s = ser(v);
    lemma_ser_first(v);
    lemma_jsize_le(v);
    assert(s.subrange(0, s.len() as int) =~= s);
    lemma_p_value_of_ser(v, s, 0, s.len() as nat);
}

} // verus!

verus! {

// ------------------------------------------------------------------
// Parsing: executable
// ------------------------------------------------------------------

fn unesc_exec(c: char) -> (r: Option<char>)
    ensures
        r == unesc(c),
{
    if c == '"' {
        Some('"')
    } else if c == '\\' {
        Some('\\')
    } else if c == '/' {
        Some('/')
    } else if c == 'n' {
        Some('\n')
    } else if c == 'r' {
        Some('\r')
    } else if c == 't' {
        Some('\t')
    } else if c == 'b' {
        Some('\u{0008}')
    } else if c == 'f' {
        Some('\u{000C}')
    } else {
        None
    }
}

fn is_digit_exec(c: char) -> (r: bool)
    ensures
        r == is_digit(c),
{
    let u: u32 = c as u32;
    48 <= u && u <= 57
}

fn parse_str_body(s: &Vec<char>, i: usize) -> (r: Option<(Vec<char>, usize)>)
    ensures
        match r {
            Some((t, j)) => p_str_body(s@, i as int) == Some((t@, j as int)) && i < j <= s@.len(),
            None => p_str_body(s@, i as int) is None,
        },
    decreases s@.len() - i,
{
    if i >= s.len() {
        return None;
    }
    let c: char = s[i];
    if c == '"' {
        let t: Vec<char> = Vec::new();
        assert(t@ =~= Seq::<char>::empty());
        Some((t, i + 1))
    } else if c == '\\' {
        if i + 1 < s.len() {
            match unesc_exec(s[i + 1]) {
                Some(u) => {
                    match parse_str_body(s, i + 2) {
                        Some((mut t, j)) => {
                            t.insert(0, u);
                            assert(t@ =~= seq![u] + t@.drop_first());
                            Some((t, j))
                        },
                        None => None,
                    }
                },
                None => None,
            }
        } else {
            None
        }
    } else {
        match parse_str_body(s, i + 1) {
            Some((mut t, j)) => {
                t.insert(0, c);
                assert(t@ =~= seq![c] + t@.drop_first());
                Some((t, j))
            },
            None => None,
        }
    }
}

/// Scan to the end of the digit run starting at `i`.
fn scan_digits(s: &Vec<char>, i: usize) -> (j: usize)
    requires
        i <= s@.len(),
    ensures
        digit_run_end(s@, i as int) == j as int,
        i <= j <= s@.len(),
{
    let mut j: usize = i;
    loop
        invariant
            i <= j <= s@.len(),
            digit_run_end(s@, i as int) == digit_run_end(s@, j as int),
        decreases s@.len() - j,
    {
        if j < s.len() {
            if is_digit_exec(s[j]) {
                j += 1;
                continue;
            }
        }
        return j;
    }
}

/// Read the value of the digits in `s[i..j]`, which fits because the run
/// is at most nineteen digits long.
fn read_digits(s: &Vec<char>, i: usize, j: usize) -> (m: u64)
    requires
        i <= j <= s@.len(),
        j - i <= 19,
        forall|k: int| i <= k < j ==> is_digit(#[trigger] s@[k]),
    ensures
        m as int == digits_val(s@, i as int, j as int),
{
    proof {
        reveal_with_fuel(pow10, 21);
    }
    let mut acc: u64 = 0;
    let mut k: usize = i;
    while k < j
        invariant
            i <= k <= j <= s@.len(),
            j - i <= 19,
            forall|q: int| i <= q < j ==> is_digit(#[trigger] s@[q]),
            acc as int == digits_val(s@, i as int, k as int),
        decreases j - k,
    {
        proof {
            reveal_with_fuel(pow10, 21);
            lemma_digits_val_bound(s@, i as int, k as int);
            lemma_pow10_mono((k - i) as nat, 18);
            assert(pow10(18) == 1_000_000_000_000_000_000);
        }
        let d: u32 = (s[k] as u32) - 48;
        acc = acc * 10 + (d as u64);
        k += 1;
    }
    acc
}

proof fn lemma_pow10_mono(a: nat, b: nat)
    requires
        a <= b,
    ensures
        pow10(a) <= pow10(b),
    decreases b,
{
    if a < b {
        lemma_pow10_mono(a, (b - 1) as nat);
        lemma_pow10_pos((b - 1) as nat);
    }
}

fn parse_value(s: &Vec<char>, i: usize, fuel: usize) -> (r: Option<(JsonValue, usize)>)
    ensures
        match r {
            Some((v, j)) => p_value(s@, i as int, fuel as nat) == Some((v@, j as int)) && i < j
                <= s@.len(),
            None => p_value(s@, i as int, fuel as nat) is None,
        },
    decreases fuel,
{
    if fuel == 0 {
        return None;
    }
    if i >= s.len() {
        return None;
    }
    let c: char = s[i];
    if c == 'n' {
        if s.len() - i >= 4 && s[i + 1] == 'u' && s[i + 2] == 'l' && s[i + 3] == 'l' {
            assert(s@.subrange(i as int, i + 4) =~= seq!['n', 'u', 'l', 'l']);
            Some((JsonValue::Null, i + 4))
        } else {
            proof {
                if i + 4 <= s@.len() && s@.subrange(i as int, i + 4) == seq!['n', 'u', 'l', 'l'] {
                    let sub = s@.subrange(i as int, i + 4);
                    assert(sub[1] == 'u' && sub[2] == 'l' && sub[3] == 'l');
                    assert(s@[i + 1] == sub[1] && s@[i + 2] == sub[2] && s@[i + 3] == sub[3]);
                    assert(false);
                }
            }
            None
        }
    } else if c == 't' {
        if s.len() - i >= 4 && s[i + 1] == 'r' && s[i + 2] == 'u' && s[i + 3] == 'e' {
            assert(s@.subrange(i as int, i + 4) =~= seq!['t', 'r', 'u', 'e']);
            Some((JsonValue::Bool(true), i + 4))
        } else {
            proof {
                if i + 4 <= s@.len() && s@.subrange(i as int, i + 4) == seq!['t', 'r', 'u', 'e'] {
                    let sub = s@.subrange(i as int, i + 4);
                    assert(sub[1] == 'r' && sub[2] == 'u' && sub[3] == 'e');
                    assert(s@[i + 1] == sub[1] && s@[i + 2] == sub[2] && s@[i + 3] == sub[3]);
                    assert(false);
                }
            }
            None
        }
    } else if c == 'f' {
        if s.len() - i >= 5 && s[i + 1] == 'a' && s[i + 2] == 'l' && s[i + 3] == 's' && s[i + 4]
            == 'e' {
            assert(s@.subrange(i as int, i + 5) =~= seq!['f', 'a', 'l', 's', 'e']);
            Some((JsonValue::Bool(false), i + 5))
        } else {
            proof {
                if i + 5 <= s@.len() && s@.subrange(i as int, i + 5) == seq!['f', 'a', 'l', 's', 'e'] {
                    let sub = s@.subrange(i as int, i + 5);
                    assert(sub[1] == 'a' && sub[2] == 'l' && sub[3] == 's' && sub[4] == 'e');
                    assert(s@[i + 1] == sub[1] && s@[i + 2] == sub[2] && s@[i + 3] == sub[3]
                        && s@[i + 4] == sub[4]);
                    assert(false);
                }
            }
            None
        }
    } else if c == '"' {
        match parse_str_body(s, i + 1) {
            Some((t, j)) => {
                let st: String = string_from_chars(&t);
                Some((JsonValue::Str(st), j))
            },
            None => None,
        }
    } else if c == '[' {
        if i + 1 < s.len() && s[i + 1] == ']' {
            let items: Vec<JsonValue> = Vec::new();
            assert(deep_items(items@) =~= Seq::<Jv>::empty());
            Some((JsonValue::Arr(items), i + 2))
        } else {
            match parse_items(s, i + 1, fuel - 1) {
                Some((vs, j)) => Some((JsonValue::Arr(vs), j)),
                None => None,
            }
        }
    } else if c == '{' {
        if i + 1 < s.len() && s[i + 1] == '}' {
            let ms: Vec<(String, JsonValue)> = Vec::new();
            assert(deep_members(ms@) =~= Seq::<(Seq<char>, Jv)>::empty());
            Some((JsonValue::Obj(ms), i + 2))
        } else {
            match parse_members(s, i + 1, fuel - 1) {
                Some((ms, j)) => Some((JsonValue::Obj(ms), j)),
                None => None,
            }
        }
    } else if c == '-' || is_digit_exec(c) {
        let d0: usize = if c == '-' {
            i + 1
        } else {
            i
        };
        let j: usize = scan_digits(s, d0);
        if j == d0 || j - d0 > 19 {
            return None;
        }
        proof {
            lemma_run_end_digits(s@, d0 as int, j as int);
        }
        let m: u64 = read_digits(s, d0, j);
        if c == '-' {
            if m > 9223372036854775808u64 {
                None
            } else if m == 9223372036854775808u64 {
                Some((JsonValue::Int(i64::MIN), j))
            } else {
                Some((JsonValue::Int(-(m as i64)), j))
            }
        } else {
            if m > 9223372036854775807u64 {
                None
            } else {
                Some((JsonValue::Int(m as i64), j))
            }
        }
    } else {
        None
    }
}

/// Every position of a digit run holds a digit.
proof fn lemma_run_end_digits(s: Seq<char>, i: int, j: int)
    requires
        0 <= i <= s.len(),
        digit_run_end(s, i) == j,
    ensures
        i <= j,
        forall|k: int| i <= k < j ==> is_digit(#[trigger] s[k]),
    decreases s.len() - i,
{
    if 0 <= i && i < s.len() && is_digit(s[i]) {
        lemma_run_end_digits(s, i + 1, j);
    }
}

fn parse_items(s: &Vec<char>, i: usize, fuel: usize) -> (r: Option<(Vec<JsonValue>, usize)>)
    ensures
        match r {
            Some((vs, j)) => p_items(s@, i as int, fuel as nat) == Some((deep_items(vs@), j as int))
                && i < j <= s@.len(),
            None => p_items(s@, i as int, fuel as nat) is None,
        },
    decreases fuel,
{
    if fuel == 0 {
        return None;
    }
    match parse_value(s, i, fuel - 1) {
        Some((v, j)) => {
            if j < s.len() && s[j] == ',' {
                match parse_items(s, j + 1, fuel - 1) {
                    Some((mut vs, j2)) => {
                        let ghost pre = vs@;
                        vs.insert(0, v);
                        proof {
                            assert(vs@ =~= seq![v] + pre);
                            lemma_deep_items_cons(vs@);
                            assert(vs@[0] == v);
                            assert(vs@.drop_first() =~= pre);
                            assert(deep_items(vs@) =~= seq![deep(v)] + deep_items(pre));
                        }
                        Some((vs, j2))
                    },
                    None => None,
                }
            } else if j < s.len() && s[j] == ']' {
                let mut vs: Vec<JsonValue> = Vec::new();
                vs.push(v);
                proof {
                    lemma_deep_items_cons(vs@);
                    assert(vs@.drop_first() =~= Seq::<JsonValue>::empty());
                    assert(deep_items(vs@) =~= seq![deep(v)]);
                }
                Some((vs, j + 1))
            } else {
                None
            }
        },
        None => None,
    }
}

proof fn lemma_deep_items_cons(s: Seq<JsonValue>)
    requires
        s.len() >= 1,
    ensures
        deep_items(s) == seq![deep(s[0])] + deep_items(s.drop_first()),
{
}

proof fn lemma_deep_members_cons(s: Seq<(String, JsonValue)>)
    requires
        s.len() >= 1,
    ensures
        deep_members(s) == seq![(s[0].0@, deep(s[0].1))] + deep_members(s.drop_first()),
{
}

fn parse_members(s: &Vec<char>, i: usize, fuel: usize) -> (r: Option<
    (Vec<(String, JsonValue)>, usize),
>)
    ensures
        match r {
            Some((ms, j)) => p_members(s@, i as int, fuel as nat) == Some(
                (deep_members(ms@), j as int),
            ) && i < j <= s@.len(),
            None => p_members(s@, i as int, fuel as nat) is None,
        },
    decreases fuel,
{
    if fuel == 0 {
        return None;
    }
    if i < s.len() && s[i] == '"' {
        match parse_str_body(s, i + 1) {
            Some((k, j)) => {
                if j < s.len() && s[j] == ':' {
                    match parse_value(s, j + 1, fuel - 1) {
                        Some((v, j2)) => {
                            let key: String = string_from_chars(&k);
                            if j2 < s.len() && s[j2] == ',' {
                                match parse_members(s, j2 + 1, fuel - 1) {
                                    Some((mut ms, j3)) => {
                                        let ghost pre = ms@;
                                        let ghost kv = k@;
                                        ms.insert(0, (key, v));
                                        proof {
                                            assert(ms@ =~= seq![(key, v)] + pre);
                                            lemma_deep_members_cons(ms@);
                                            assert(ms@[0] == (key, v));
                                            assert(ms@.drop_first() =~= pre);
                                            assert(deep_members(ms@) =~= seq![(kv, deep(v))]
                                                + deep_members(pre));
                                        }
                                        Some((ms, j3))
                                    },
                                    None => None,
                                }
                            } else if j2 < s.len() && s[j2] == '}' {
                                let mut ms: Vec<(String, JsonValue)> = Vec::new();
                                ms.push((key, v));
                                proof {
                                    lemma_deep_members_cons(ms@);
                                    assert(ms@.drop_first() =~= Seq::<(String, JsonValue)>::empty());
                                    assert(deep_members(ms@) =~= seq![(k@, deep(v))]);
                                }
                                Some((ms, j2 + 1))
                            } else {
                                None
                            }
                        },
                        None => None,
                    }
                } else {
                    None
                }
            },
            None => None,
        }
    } else {
        None
    }
}

/// Parse a whole document: one value covering all of `s`.
pub fn parse_json(s: &str) -> (r: Option<JsonValue>)
    ensures
        match r {
            Some(v) => p_doc(s@) == Some(v@),
            None => p_doc(s@) is None,
        },
{
    let cs: Vec<char> = crate::strutil::chars_vec(s);
    let n: usize = cs.len();
    match parse_value(&cs, 0, n) {
        Some((v, j)) => {
            if j == n {
                Some(v)
            } else {
                None
            }
        },
        None => None,
    }
}

} // verus!

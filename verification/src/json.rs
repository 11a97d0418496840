//! The wire format: a small JSON tree, a serializer and a parser, both
//! verified against spec-level definitions, together with a proof that the
//! parser recovers whatever the serializer emits.

use vstd::prelude::*;

verus! {

/// Spec-level JSON value. `NumLit` keeps the raw lexeme of a numeric literal
/// that is not an integer fitting `i64` (a fraction, an exponent, or an
/// out-of-range integer); such a value is carried verbatim, never computed on.
pub enum JsonV {
    Null,
    Bool(bool),
    Int(int),
    NumLit(Seq<char>),
    Str(Seq<char>),
    Arr(Seq<JsonV>),
    Obj(Seq<(Seq<char>, JsonV)>),
}

/// Executable JSON value, mirroring [`JsonV`]. Strings are kept as character
/// vectors so that the codec needs no unverified string plumbing.
pub enum Json {
    Null,
    Bool(bool),
    Int(i64),
    NumLit(Vec<char>),
    Str(Vec<char>),
    Arr(Vec<Json>),
    Obj(Vec<(Vec<char>, Json)>),
}

/// The spec value that an executable [`Json`] stands for.
pub open spec fn jv(j: Json) -> JsonV
    decreases j, 0int,
{
    match j {
        Json::Null => JsonV::Null,
        Json::Bool(b) => JsonV::Bool(b),
        Json::Int(n) => JsonV::Int(n as int),
        Json::NumLit(s) => JsonV::NumLit(s@),
        Json::Str(s) => JsonV::Str(s@),
        Json::Arr(items) => JsonV::Arr(jv_items(items, 0)),
        Json::Obj(members) => JsonV::Obj(jv_members(members, 0)),
    }
}

/// The spec values of the array elements from index `i` on.
pub open spec fn jv_items(items: Vec<Json>, i: int) -> Seq<JsonV>
    decreases items, items@.len() - i,
{
    if i < 0 || i >= items@.len() {
        Seq::empty()
    } else {
        seq![jv(items@[i])] + jv_items(items, i + 1)
    }
}

/// The spec values of the object members from index `i` on.
pub open spec fn jv_members(members: Vec<(Vec<char>, Json)>, i: int) -> Seq<(Seq<char>, JsonV)>
    decreases members, members@.len() - i,
{
    if i < 0 || i >= members@.len() {
        Seq::empty()
    } else {
        seq![(members@[i].0@, jv(members@[i].1))] + jv_members(members, i + 1)
    }
}

impl View for Json {
    type V = JsonV;

    open spec fn view(&self) -> JsonV {
        jv(*self)
    }
}

pub proof fn lemma_jv_items_index(items: Vec<Json>, i: int)
    requires
        0 <= i <= items@.len(),
    ensures
        jv_items(items, i).len() == items@.len() - i,
        forall|k: int|
            i <= k < items@.len() ==> jv_items(items, i)[k - i] == jv(items@[k]),
    decreases items@.len() - i,
{
    if i < items@.len() {
        lemma_jv_items_index(items, i + 1);
    }
}

pub proof fn lemma_jv_members_index(members: Vec<(Vec<char>, Json)>, i: int)
    requires
        0 <= i <= members@.len(),
    ensures
        jv_members(members, i).len() == members@.len() - i,
        forall|k: int|
            i <= k < members@.len() ==> jv_members(members, i)[k - i] == (
            members@[k].0@,
            jv(members@[k].1),
            ),
    decreases members@.len() - i,
{
    if i < members@.len() {
        lemma_jv_members_index(members, i + 1);
    }
}

// ---------------------------------------------------------------------------
// Serializer specification
// ---------------------------------------------------------------------------
/// The character for one decimal digit value.
pub open spec fn dec_digit(n: int) -> char {
    if n == 0 {
        '0'
    } else if n == 1 {
        '1'
    } else if n == 2 {
        '2'
    } else if n == 3 {
        '3'
    } else if n == 4 {
        '4'
    } else if n == 5 {
        '5'
    } else if n == 6 {
        '6'
    } else if n == 7 {
        '7'
    } else if n == 8 {
        '8'
    } else {
        '9'
    }
}

/// The decimal digits of `n`, most significant first, no leading zeros.
pub open spec fn dec_digits(n: nat) -> Seq<char>
    decreases n,
{
    if n < 10 {
        seq![dec_digit(n as int)]
    } else {
        dec_digits(n / 10) + seq![dec_digit((n % 10) as int)]
    }
}

/// The canonical text of an integer.
pub open spec fn ser_int(n: int) -> Seq<char> {
    if n < 0 {
        seq!['-'] + dec_digits((-n) as nat)
    } else {
        dec_digits(n as nat)
    }
}

/// The lowercase character for one hexadecimal digit value.
pub open spec fn hex_digit(n: int) -> char {
    if n < 10 {
        dec_digit(n)
    } else if n == 10 {
        'a'
    } else if n == 11 {
        'b'
    } else if n == 12 {
        'c'
    } else if n == 13 {
        'd'
    } else if n == 14 {
        'e'
    } else {
        'f'
    }
}

/// How one character appears inside a serialized string literal.
pub open spec fn esc_char(c: char) -> Seq<char> {
    if c == '"' {
        seq!['\\', '"']
    } else if c == '\\' {
        seq!['\\', '\\']
    } else if c == '\n' {
        seq!['\\', 'n']
    } else if c == '\r' {
        seq!['\\', 'r']
    } else if c == '\t' {
        seq!['\\', 't']
    } else if (c as u32) < 0x20 {
        seq!['\\', 'u', '0', '0', hex_digit(c as u32 as int / 16), hex_digit(c as u32 as int % 16)]
    } else {
        seq![c]
    }
}

/// The serialized body of a string literal, from character `i` on.
pub open spec fn ser_str_body(s: Seq<char>, i: int) -> Seq<char>
    decreases s.len() - i,
{
    if i < 0 || i >= s.len() {
        Seq::empty()
    } else {
        esc_char(s[i]) + ser_str_body(s, i + 1)
    }
}

/// A serialized string literal, quotes included.
pub open spec fn ser_str(s: Seq<char>) -> Seq<char> {
    seq!['"'] + ser_str_body(s, 0) + seq!['"']
}

/// The canonical serialization of a JSON value: no whitespace, strings
/// escaped by [`esc_char`], integers in decimal.
pub open spec fn ser(j: JsonV) -> Seq<char>
    decreases j, 0int,
{
    match j {
        JsonV::Null => seq!['n', 'u', 'l', 'l'],
        JsonV::Bool(b) => if b {
            seq!['t', 'r', 'u', 'e']
        } else {
            seq!['f', 'a', 'l', 's', 'e']
        },
        JsonV::Int(n) => ser_int(n),
        JsonV::NumLit(s) => s,
        JsonV::Str(s) => ser_str(s),
        JsonV::Arr(items) => seq!['['] + ser_items(items, 0) + seq![']'],
        JsonV::Obj(members) => seq!['{'] + ser_members(members, 0) + seq!['}'],
    }
}

/// The serialized elements of an array from index `i` on, comma-separated.
pub open spec fn ser_items(items: Seq<JsonV>, i: int) -> Seq<char>
    decreases items, items.len() - i,
{
    if i < 0 || i >= items.len() {
        Seq::empty()
    } else if i + 1 < items.len() {
        ser(items[i]) + seq![','] + ser_items(items, i + 1)
    } else {
        ser(items[i])
    }
}

/// The serialized members of an object from index `i` on, comma-separated.
pub open spec fn ser_members(members: Seq<(Seq<char>, JsonV)>, i: int) -> Seq<char>
    decreases members, members.len() - i,
{
    if i < 0 || i >= members.len() {
        Seq::empty()
    } else if i + 1 < members.len() {
        ser_str(members[i].0) + seq![':'] + ser(members[i].1) + seq![','] + ser_members(
            members,
            i + 1,
        )
    } else {
        ser_str(members[i].0) + seq![':'] + ser(members[i].1)
    }
}

// ---------------------------------------------------------------------------
// Executable serializer
// ---------------------------------------------------------------------------
/// One decimal digit as a character.
fn dec_digit_exec(n: u64) -> (c: char)
    requires
        n < 10,
    ensures
        c == dec_digit(n as int),
{
    if n == 0 {
        '0'
    } else if n == 1 {
        '1'
    } else if n == 2 {
        '2'
    } else if n == 3 {
        '3'
    } else if n == 4 {
        '4'
    } else if n == 5 {
        '5'
    } else if n == 6 {
        '6'
    } else if n == 7 {
        '7'
    } else if n == 8 {
        '8'
    } else {
        '9'
    }
}

/// One lowercase hexadecimal digit as a character.
fn hex_digit_exec(n: u32) -> (c: char)
    requires
        n < 16,
    ensures
        c == hex_digit(n as int),
{
    if n < 10 {
        dec_digit_exec(n as u64)
    } else if n == 10 {
        'a'
    } else if n == 11 {
        'b'
    } else if n == 12 {
        'c'
    } else if n == 13 {
        'd'
    } else if n == 14 {
        'e'
    } else {
        'f'
    }
}

/// Appends the decimal digits of `n`.
fn push_dec_digits(n: u64, out: &mut Vec<char>)
    ensures
        final(out)@ == old(out)@ + dec_digits(n as nat),
    decreases n,
{
    if n < 10 {
        out.push(dec_digit_exec(n));
    } else {
        push_dec_digits(n / 10, out);
        out.push(dec_digit_exec(n % 10));
    }
}

/// Appends the decimal text of a signed integer.
fn push_int(n: i64, out: &mut Vec<char>)
    ensures
        final(out)@ == old(out)@ + ser_int(n as int),
{
    if n < 0 {
        out.push('-');
        let m: u64 = ((-(n + 1)) as u64) + 1;
        assert(m as nat == (-(n as int)) as nat);
        push_dec_digits(m, out);
        assert(out@ =~= old(out)@ + ser_int(n as int));
    } else {
        push_dec_digits(n as u64, out);
    }
}

/// Appends the escaped form of one string-literal character.
fn push_escaped(c: char, out: &mut Vec<char>)
    ensures
        final(out)@ == old(out)@ + esc_char(c),
{
    if c == '"' {
        out.push('\\');
        out.push('"');
    } else if c == '\\' {
        out.push('\\');
        out.push('\\');
    } else if c == '\n' {
        out.push('\\');
        out.push('n');
    } else if c == '\r' {
        out.push('\\');
        out.push('r');
    } else if c == '\t' {
        out.push('\\');
        out.push('t');
    } else if (c as u32) < 0x20 {
        out.push('\\');
        out.push('u');
        out.push('0');
        out.push('0');
        out.push(hex_digit_exec((c as u32) / 16));
        out.push(hex_digit_exec((c as u32) % 16));
    } else {
        out.push(c);
    }
    assert(out@ =~= old(out)@ + esc_char(c));
}

/// Appends a serialized string literal, quotes included.
fn push_string(s: &Vec<char>, out: &mut Vec<char>)
    ensures
        final(out)@ == old(out)@ + ser_str(s@),
{
    out.push('"');
    let ghost base = out@;
    let mut i: usize = 0;
    while i < s.len()
        invariant
            0 <= i <= s@.len(),
            out@ + ser_str_body(s@, i as int) == base + ser_str_body(s@, 0),
        decreases s@.len() - i,
    {
        let ghost pre = out@;
        push_escaped(s[i], out);
        assert(pre + ser_str_body(s@, i as int) == pre + esc_char(s@[i as int]) + ser_str_body(
            s@,
            i as int + 1,
        ));
        assert(out@ + ser_str_body(s@, i as int + 1) =~= pre + esc_char(s@[i as int])
            + ser_str_body(s@, i as int + 1));
        i = i + 1;
    }
    out.push('"');
    assert(out@ =~= old(out)@ + ser_str(s@));
}

/// Appends the canonical serialization of `j`.
pub fn encode_json(j: &Json, out: &mut Vec<char>)
    ensures
        final(out)@ == old(out)@ + ser(j@),
    decreases j,
{
    match j {
        Json::Null => {
            out.push('n');
            out.push('u');
            out.push('l');
            out.push('l');
            assert(out@ =~= old(out)@ + ser(j@));
        },
        Json::Bool(b) => {
            if *b {
                out.push('t');
                out.push('r');
                out.push('u');
                out.push('e');
            } else {
                out.push('f');
                out.push('a');
                out.push('l');
                out.push('s');
                out.push('e');
            }
            assert(out@ =~= old(out)@ + ser(j@));
        },
        Json::Int(n) => {
            push_int(*n, out);
        },
        Json::NumLit(s) => {
            let ghost base = out@;
            let mut i: usize = 0;
            while i < s.len()
                invariant
                    0 <= i <= s@.len(),
                    out@ == base + s@.take(i as int),
                decreases s@.len() - i,
            {
                out.push(s[i]);
                assert(out@ =~= base + s@.take(i as int + 1));
                i = i + 1;
            }
            assert(out@ =~= old(out)@ + ser(j@));
        },
        Json::Str(s) => {
            push_string(s, out);
        },
        Json::Arr(items) => {
            proof {
                lemma_jv_items_index(*items, 0);
            }
            out.push('[');
            let ghost base = out@;
            let ghost vitems = jv_items(*items, 0);
            let mut i: usize = 0;
            while i < items.len()
                invariant
                    *j == Json::Arr(*items),
                    0 <= i <= items@.len(),
                    vitems == jv_items(*items, 0),
                    vitems.len() == items@.len(),
                    forall|k: int| 0 <= k < items@.len() ==> vitems[k] == jv(items@[k]),
                    i < items@.len() ==> out@ + ser_items(vitems, i as int) == base + ser_items(
                        vitems,
                        0,
                    ),
                    i == items@.len() ==> out@ == base + ser_items(vitems, 0),
                decreases items@.len() - i,
            {
                let ghost pre = out@;
                proof {
                    broadcast use vstd::std_specs::vec::group_vec_axioms;

                    assert(decreases_to!(*j => (*j)->Arr_0));
                    assert(decreases_to!(*items => items@));
                    assert(decreases_to!(items@ => items@[i as int]));
                }
                encode_json(&items[i], out);
                assert(ser(items@[i as int]@) == ser(vitems[i as int]));
                if i + 1 < items.len() {
                    out.push(',');
                    assert(out@ + ser_items(vitems, i as int + 1) =~= pre + ser_items(
                        vitems,
                        i as int,
                    ));
                } else {
                    assert(out@ =~= pre + ser_items(vitems, i as int));
                }
                i = i + 1;
            }
            out.push(']');
            assert(out@ =~= old(out)@ + ser(j@));
        },
        Json::Obj(members) => {
            proof {
                lemma_jv_members_index(*members, 0);
            }
            out.push('{');
            let ghost base = out@;
            let ghost vmembers = jv_members(*members, 0);
            let mut i: usize = 0;
            while i < members.len()
                invariant
                    *j == Json::Obj(*members),
                    0 <= i <= members@.len(),
                    vmembers == jv_members(*members, 0),
                    vmembers.len() == members@.len(),
                    forall|k: int|
                        0 <= k < members@.len() ==> vmembers[k] == (
                        members@[k].0@,
                        jv(members@[k].1),
                        ),
                    i < members@.len() ==> out@ + ser_members(vmembers, i as int) == base
                        + ser_members(vmembers, 0),
                    i == members@.len() ==> out@ == base + ser_members(vmembers, 0),
                decreases members@.len() - i,
            {
                let ghost pre = out@;
                push_string(&members[i].0, out);
                out.push(':');
                proof {
                    broadcast use vstd::std_specs::vec::group_vec_axioms;

                    assert(decreases_to!(*j => (*j)->Obj_0));
                    assert(decreases_to!(*members => members@));
                    assert(decreases_to!(members@ => members@[i as int]));
                    assert(decreases_to!(members@[i as int] => members@[i as int].1));
                }
                encode_json(&members[i].1, out);
                assert(ser(members@[i as int].1@) == ser(vmembers[i as int].1));
                assert(ser_str(members@[i as int].0@) == ser_str(vmembers[i as int].0));
                if i + 1 < members.len() {
                    out.push(',');
                    assert(out@ + ser_members(vmembers, i as int + 1) =~= pre + ser_members(
                        vmembers,
                        i as int,
                    ));
                } else {
                    assert(out@ =~= pre + ser_members(vmembers, i as int));
                }
                i = i + 1;
            }
            out.push('}');
            assert(out@ =~= old(out)@ + ser(j@));
        },
    }
}

/// Serializes `j` as one line of canonical JSON text.
pub fn encode(j: &Json) -> (out: Vec<char>)
    ensures
        out@ == ser(j@),
{
    let mut out: Vec<char> = Vec::new();
    encode_json(j, &mut out);
    out
}


// ---------------------------------------------------------------------------
// Parser specification
// ---------------------------------------------------------------------------
/// JSON insignificant whitespace.
pub open spec fn is_ws(c: char) -> bool {
    c == ' ' || c == '\t' || c == '\r' || c == '\n'
}

/// The first index at or after `i` holding a non-whitespace character.
pub open spec fn skip_ws(s: Seq<char>, i: int) -> int
    decreases s.len() - i,
{
    if 0 <= i < s.len() && is_ws(s[i]) {
        skip_ws(s, i + 1)
    } else {
        i
    }
}

/// A decimal digit.
pub open spec fn is_digit(c: char) -> bool {
    0x30 <= c as u32 <= 0x39
}

/// The numeric value of a decimal digit.
pub open spec fn digit_val(c: char) -> int {
    c as u32 - 0x30
}

/// The value of a hexadecimal digit, or -1 for any other character.
pub open spec fn hex_val(c: char) -> int {
    let u = c as u32;
    if 0x30 <= u <= 0x39 {
        u - 0x30
    } else if 0x61 <= u <= 0x66 {
        u - 0x61 + 10
    } else if 0x41 <= u <= 0x46 {
        u - 0x41 + 10
    } else {
        -1
    }
}

/// The value of the four hexadecimal digits at `i`, or -1 if any is missing
/// or not a hexadecimal digit.
pub open spec fn hex4(s: Seq<char>, i: int) -> int {
    if i + 4 <= s.len() && hex_val(s[i]) >= 0 && hex_val(s[i + 1]) >= 0 && hex_val(s[i + 2]) >= 0
        && hex_val(s[i + 3]) >= 0 {
        hex_val(s[i]) * 4096 + hex_val(s[i + 1]) * 256 + hex_val(s[i + 2]) * 16 + hex_val(s[i + 3])
    } else {
        -1
    }
}

/// Prepends a character to a successful string-body parse.
pub open spec fn sp_cons(c: char, r: Option<(Seq<char>, int)>) -> Option<(Seq<char>, int)> {
    match r {
        Some((t, k)) => Some((seq![c] + t, k)),
        None => None,
    }
}

/// Parses the body of a string literal starting just after the opening quote
/// at `i - 1`; yields the unescaped content and the index after the closing
/// quote. Unescaped control characters, bad escapes, bad `\u` digits and
/// surrogate code points are rejected.
pub open spec fn sp_str_body(s: Seq<char>, i: int) -> Option<(Seq<char>, int)>
    decreases s.len() - i,
{
    if i < 0 || i >= s.len() {
        None
    } else {
        let c = s[i];
        if c == '"' {
            Some((Seq::empty(), i + 1))
        } else if c == '\\' {
            if i + 1 >= s.len() {
                None
            } else {
                let e = s[i + 1];
                if e == '"' {
                    sp_cons('"', sp_str_body(s, i + 2))
                } else if e == '\\' {
                    sp_cons('\\', sp_str_body(s, i + 2))
                } else if e == '/' {
                    sp_cons('/', sp_str_body(s, i + 2))
                } else if e == 'b' {
                    sp_cons('\u{8}', sp_str_body(s, i + 2))
                } else if e == 'f' {
                    sp_cons('\u{c}', sp_str_body(s, i + 2))
                } else if e == 'n' {
                    sp_cons('\n', sp_str_body(s, i + 2))
                } else if e == 'r' {
                    sp_cons('\r', sp_str_body(s, i + 2))
                } else if e == 't' {
                    sp_cons('\t', sp_str_body(s, i + 2))
                } else if e == 'u' {
                    let h = hex4(s, i + 2);
                    if h < 0 || (0xD800 <= h < 0xE000) {
                        None
                    } else {
                        sp_cons((h as u32) as char, sp_str_body(s, i + 6))
                    }
                } else {
                    None
                }
            }
        } else if (c as u32) < 0x20 {
            None
        } else {
            sp_cons(c, sp_str_body(s, i + 1))
        }
    }
}

/// The first index at or after `i` holding a non-digit.
pub open spec fn digits_end(s: Seq<char>, i: int) -> int
    decreases s.len() - i,
{
    if 0 <= i < s.len() && is_digit(s[i]) {
        digits_end(s, i + 1)
    } else {
        i
    }
}

pub proof fn lemma_digits_end_bounds(s: Seq<char>, i: int)
    requires
        0 <= i <= s.len(),
    ensures
        i <= digits_end(s, i) <= s.len(),
        forall|k: int| i <= k < digits_end(s, i) ==> is_digit(s[k]),
        digits_end(s, i) < s.len() ==> !is_digit(s[digits_end(s, i)]),
    decreases s.len() - i,
{
    if i < s.len() && is_digit(s[i]) {
        lemma_digits_end_bounds(s, i + 1);
    }
}

/// The value of the digit run `s[i .. j]`, read as a decimal number.
pub open spec fn digits_val(s: Seq<char>, i: int, j: int) -> int
    decreases j - i,
{
    if j <= i {
        0
    } else {
        digits_val(s, i, j - 1) * 10 + digit_val(s[j - 1])
    }
}

/// Parses a numeric literal at `i` (where `s[i]` is `-` or a digit). An
/// integer in `i64` range becomes `Int`; any other well-formed number keeps
/// its lexeme as `NumLit`.
pub open spec fn sp_number(s: Seq<char>, i: int) -> Option<(JsonV, int)> {
    let m = if s[i] == '-' {
        i + 1
    } else {
        i
    };
    if m >= s.len() || !is_digit(s[m]) {
        None
    } else {
        let p = if s[m] == '0' {
            m + 1
        } else {
            digits_end(s, m)
        };
        let q = if p < s.len() && s[p] == '.' {
            digits_end(s, p + 1)
        } else {
            p
        };
        if q != p && q == p + 1 {
            // a dot with no digits after it
            None
        } else {
            let r0 = if q < s.len() && (s[q] == 'e' || s[q] == 'E') {
                if q + 1 < s.len() && (s[q + 1] == '+' || s[q + 1] == '-') {
                    q + 2
                } else {
                    q + 1
                }
            } else {
                q
            };
            let e = if r0 == q {
                q
            } else {
                digits_end(s, r0)
            };
            if e == r0 && r0 != q {
                // an exponent marker with no digits after it
                None
            } else if q == p && e == q {
                // a plain integer
                let v = digits_val(s, m, p);
                let sv = if s[i] == '-' {
                    -v
                } else {
                    v
                };
                if -0x8000000000000000 <= sv <= 0x7fffffffffffffff {
                    Some((JsonV::Int(sv), p))
                } else {
                    Some((JsonV::NumLit(s.subrange(i, p)), p))
                }
            } else {
                Some((JsonV::NumLit(s.subrange(i, e)), e))
            }
        }
    }
}

/// Parses one JSON value at or after `i`, leading whitespace skipped. `fuel`
/// bounds the nesting; `sp_decode` supplies enough for any input of the
/// given length.
pub open spec fn sp_value(s: Seq<char>, i0: int, fuel: nat) -> Option<(JsonV, int)>
    decreases fuel, 0int,
{
    if fuel == 0 {
        None
    } else {
        let i = skip_ws(s, i0);
        if i >= s.len() {
            None
        } else {
            let c = s[i];
            if c == 'n' {
                if i + 4 <= s.len() && s[i + 1] == 'u' && s[i + 2] == 'l' && s[i + 3] == 'l' {
                    Some((JsonV::Null, i + 4))
                } else {
                    None
                }
            } else if c == 't' {
                if i + 4 <= s.len() && s[i + 1] == 'r' && s[i + 2] == 'u' && s[i + 3] == 'e' {
                    Some((JsonV::Bool(true), i + 4))
                } else {
                    None
                }
            } else if c == 'f' {
                if i + 5 <= s.len() && s[i + 1] == 'a' && s[i + 2] == 'l' && s[i + 3] == 's' && s[i
                    + 4] == 'e' {
                    Some((JsonV::Bool(false), i + 5))
                } else {
                    None
                }
            } else if c == '"' {
                match sp_str_body(s, i + 1) {
                    Some((cs, k)) => Some((JsonV::Str(cs), k)),
                    None => None,
                }
            } else if c == '-' || is_digit(c) {
                sp_number(s, i)
            } else if c == '[' {
                let k = skip_ws(s, i + 1);
                if k < s.len() && s[k] == ']' {
                    Some((JsonV::Arr(Seq::empty()), k + 1))
                } else {
                    match sp_elems(s, i + 1, (fuel - 1) as nat) {
                        Some((items, k2)) => Some((JsonV::Arr(items), k2 + 1)),
                        None => None,
                    }
                }
            } else if c == '{' {
                let k = skip_ws(s, i + 1);
                if k < s.len() && s[k] == '}' {
                    Some((JsonV::Obj(Seq::empty()), k + 1))
                } else {
                    match sp_members(s, i + 1, (fuel - 1) as nat) {
                        Some((members, k2)) => Some((JsonV::Obj(members), k2 + 1)),
                        None => None,
                    }
                }
            } else {
                None
            }
        }
    }
}

/// Parses one or more comma-separated array elements; on success the index
/// points at the closing bracket.
pub open spec fn sp_elems(s: Seq<char>, i: int, fuel: nat) -> Option<(Seq<JsonV>, int)>
    decreases fuel, 1int,
{
    match sp_value(s, i, fuel) {
        Some((v, j)) => {
            let k = skip_ws(s, j);
            if k < s.len() && s[k] == ',' {
                if fuel == 0 {
                    None
                } else {
                    match sp_elems(s, k + 1, (fuel - 1) as nat) {
                        Some((rest, e)) => Some((seq![v] + rest, e)),
                        None => None,
                    }
                }
            } else if k < s.len() && s[k] == ']' {
                Some((seq![v], k))
            } else {
                None
            }
        },
        None => None,
    }
}

/// Parses one or more comma-separated object members; on success the index
/// points at the closing brace.
pub open spec fn sp_members(s: Seq<char>, i: int, fuel: nat) -> Option<
    (Seq<(Seq<char>, JsonV)>, int),
>
    decreases fuel, 1int,
{
    let k = skip_ws(s, i);
    if k >= s.len() || s[k] != '"' {
        None
    } else {
        match sp_str_body(s, k + 1) {
            Some((key, j)) => {
                let c = skip_ws(s, j);
                if c < s.len() && s[c] == ':' {
                    match sp_value(s, c + 1, fuel) {
                        Some((v, j2)) => {
                            let k2 = skip_ws(s, j2);
                            if k2 < s.len() && s[k2] == ',' {
                                if fuel == 0 {
                                    None
                                } else {
                                    match sp_members(s, k2 + 1, (fuel - 1) as nat) {
                                        Some((rest, e)) => Some((seq![(key, v)] + rest, e)),
                                        None => None,
                                    }
                                }
                            } else if k2 < s.len() && s[k2] == '}' {
                                Some((seq![(key, v)], k2))
                            } else {
                                None
                            }
                        },
                        None => None,
                    }
                } else {
                    None
                }
            },
            None => None,
        }
    }
}

/// The JSON value denoted by the whole character sequence, if it is one
/// well-formed value with nothing but whitespace around it.
pub open spec fn sp_decode(s: Seq<char>) -> Option<JsonV> {
    match sp_value(s, 0, (s.len() + 1) as nat) {
        Some((v, i)) => if skip_ws(s, i) == s.len() {
            Some(v)
        } else {
            None
        },
        None => None,
    }
}


// ---------------------------------------------------------------------------
// Executable parser
// ---------------------------------------------------------------------------
/// Relies on char::from_u32 of std: `Some` exactly for Unicode scalar values
/// (at most 0x10FFFF and not a surrogate), returning the character with that
/// code point.
pub assume_specification[ char::from_u32 ](i: u32) -> (c: Option<char>)
    ensures
        match c {
            Some(ch) => ch as u32 == i && !(0xD800 <= i < 0xE000) && i <= 0x10FFFF,
            None => (0xD800 <= i < 0xE000) || i > 0x10FFFF,
        },
;

/// Prepends already-read content to a string-body parse.
pub open spec fn sp_prepend(pre: Seq<char>, r: Option<(Seq<char>, int)>) -> Option<
    (Seq<char>, int),
> {
    match r {
        Some((t, k)) => Some((pre + t, k)),
        None => None,
    }
}

proof fn lemma_prepend_cons(pre: Seq<char>, c: char, r: Option<(Seq<char>, int)>)
    ensures
        sp_prepend(pre, sp_cons(c, r)) == sp_prepend(pre.push(c), r),
{
    match r {
        Some((t, k)) => {
            assert(pre + (seq![c] + t) =~= pre.push(c) + t);
        },
        None => {},
    }
}

fn is_ws_exec(c: char) -> (r: bool)
    ensures
        r == is_ws(c),
{
    c == ' ' || c == '\t' || c == '\r' || c == '\n'
}

fn is_digit_exec(c: char) -> (r: bool)
    ensures
        r == is_digit(c),
{
    let u = c as u32;
    0x30 <= u && u <= 0x39
}

pub fn skip_ws_exec(s: &Vec<char>, i: usize) -> (j: usize)
    requires
        i <= s@.len(),
    ensures
        j as int == skip_ws(s@, i as int),
        i <= j <= s@.len(),
{
    let mut j = i;
    while j < s.len() && is_ws_exec(s[j])
        invariant
            i <= j <= s@.len(),
            skip_ws(s@, i as int) == skip_ws(s@, j as int),
        decreases s@.len() - j,
    {
        j = j + 1;
    }
    assert(skip_ws(s@, j as int) == j as int);
    j
}

/// The value of one hexadecimal digit, or -1.
fn hex_val_exec(c: char) -> (v: i32)
    ensures
        v as int == hex_val(c),
{
    let u = c as u32;
    if 0x30 <= u && u <= 0x39 {
        (u - 0x30) as i32
    } else if 0x61 <= u && u <= 0x66 {
        (u - 0x61 + 10) as i32
    } else if 0x41 <= u && u <= 0x46 {
        (u - 0x41 + 10) as i32
    } else {
        -1
    }
}

/// Parses a string-literal body starting just after the opening quote.
fn parse_str_body(s: &Vec<char>, i: usize) -> (r: Option<(Vec<char>, usize)>)
    requires
        i <= s@.len(),
    ensures
        match r {
            Some(p) => sp_str_body(s@, i as int) == Some((p.0@, p.1 as int)) && i < p.1
                <= s@.len(),
            None => sp_str_body(s@, i as int) is None,
        },
{
    let mut cur = i;
    let mut content: Vec<char> = Vec::new();
    loop
        invariant
            i <= cur <= s@.len(),
            sp_str_body(s@, i as int) == sp_prepend(content@, sp_str_body(s@, cur as int)),
        decreases s@.len() - cur,
    {
        if cur >= s.len() {
            return None;
        }
        let c = s[cur];
        if c == '"' {
            assert(content@ + Seq::<char>::empty() =~= content@);
            return Some((content, cur + 1));
        } else if c == '\\' {
            if cur + 1 >= s.len() {
                return None;
            }
            let e = s[cur + 1];
            if e == 'u' {
                if s.len() - cur < 6 {
                    assert(hex4(s@, cur as int + 2) == -1);
                    return None;
                }
                let h0 = hex_val_exec(s[cur + 2]);
                let h1 = hex_val_exec(s[cur + 3]);
                let h2 = hex_val_exec(s[cur + 4]);
                let h3 = hex_val_exec(s[cur + 5]);
                if h0 < 0 || h1 < 0 || h2 < 0 || h3 < 0 {
                    assert(hex4(s@, cur as int + 2) == -1);
                    return None;
                }
                let h: u32 = (h0 as u32) * 4096 + (h1 as u32) * 256 + (h2 as u32) * 16 + (
                h3 as u32);
                assert(h as int == hex4(s@, cur as int + 2));
                if 0xD800 <= h && h < 0xE000 {
                    return None;
                }
                let ch = match char::from_u32(h) {
                    Some(ch) => ch,
                    None => {
                        proof {
                            assert(h <= 0xFFFF);
                            assert(false);
                        }
                        '\u{0}'
                    },
                };
                proof {
                    vstd::utf8::char_u32_cast(ch, h);
                    lemma_prepend_cons(content@, (h as u32) as char, sp_str_body(s@, cur as int + 6));
                }
                content.push(ch);
                cur = cur + 6;
            } else {
                let unescaped: char = if e == '"' {
                    '"'
                } else if e == '\\' {
                    '\\'
                } else if e == '/' {
                    '/'
                } else if e == 'b' {
                    '\u{8}'
                } else if e == 'f' {
                    '\u{c}'
                } else if e == 'n' {
                    '\n'
                } else if e == 'r' {
                    '\r'
                } else if e == 't' {
                    '\t'
                } else {
                    ' '
                };
                if e == '"' || e == '\\' || e == '/' || e == 'b' || e == 'f' || e == 'n' || e == 'r'
                    || e == 't' {
                    proof {
                        lemma_prepend_cons(content@, unescaped, sp_str_body(s@, cur as int + 2));
                    }
                    content.push(unescaped);
                    cur = cur + 2;
                } else {
                    return None;
                }
            }
        } else if (c as u32) < 0x20 {
            return None;
        } else {
            proof {
                lemma_prepend_cons(content@, c, sp_str_body(s@, cur as int + 1));
            }
            content.push(c);
            cur = cur + 1;
        }
    }
}

fn digits_end_exec(s: &Vec<char>, i: usize) -> (j: usize)
    requires
        i <= s@.len(),
    ensures
        j as int == digits_end(s@, i as int),
        i <= j <= s@.len(),
{
    let mut j = i;
    while j < s.len() && is_digit_exec(s[j])
        invariant
            i <= j <= s@.len(),
            digits_end(s@, i as int) == digits_end(s@, j as int),
        decreases s@.len() - j,
    {
        j = j + 1;
    }
    assert(digits_end(s@, j as int) == j as int);
    j
}

proof fn lemma_digits_val_nonneg(s: Seq<char>, i: int, j: int)
    requires
        forall|k: int| i <= k < j ==> is_digit(s[k]),
    ensures
        digits_val(s, i, j) >= 0,
    decreases j - i,
{
    if j > i {
        lemma_digits_val_nonneg(s, i, j - 1);
    }
}

proof fn lemma_digits_val_mono(s: Seq<char>, i: int, j1: int, j2: int)
    requires
        i <= j1 <= j2,
        forall|k: int| i <= k < j2 ==> is_digit(s[k]),
    ensures
        0 <= digits_val(s, i, j1) <= digits_val(s, i, j2),
    decreases j2 - j1,
{
    lemma_digits_val_nonneg(s, i, j1);
    if j2 > j1 {
        lemma_digits_val_mono(s, i, j1, j2 - 1);
        lemma_digits_val_nonneg(s, i, j2 - 1);
    }
}

/// Copies `s[from .. to]` into a fresh vector.
fn copy_range(s: &Vec<char>, from: usize, to: usize) -> (out: Vec<char>)
    requires
        from <= to <= s@.len(),
    ensures
        out@ == s@.subrange(from as int, to as int),
{
    let mut out: Vec<char> = Vec::new();
    let mut j = from;
    while j < to
        invariant
            from <= j <= to <= s@.len(),
            out@ == s@.subrange(from as int, j as int),
        decreases to - j,
    {
        out.push(s[j]);
        assert(out@ =~= s@.subrange(from as int, j as int + 1));
        j = j + 1;
    }
    out
}

/// Parses a numeric literal at `i`.
fn parse_number(s: &Vec<char>, i: usize) -> (r: Option<(Json, usize)>)
    requires
        i < s@.len(),
        s@[i as int] == '-' || is_digit(s@[i as int]),
    ensures
        match r {
            Some(p) => sp_number(s@, i as int) == Some((p.0@, p.1 as int)) && i < p.1 <= s@.len(),
            None => sp_number(s@, i as int) is None,
        },
{
    let n = s.len();
    let neg = s[i] == '-';
    let m = if neg {
        i + 1
    } else {
        i
    };
    if m >= n || !is_digit_exec(s[m]) {
        return None;
    }
    let p = if s[m] == '0' {
        m + 1
    } else {
        digits_end_exec(s, m)
    };
    proof {
        lemma_digits_end_bounds(s@, m as int);
        if s@[m as int] == '0' {
            assert(forall|k: int| m <= k < p ==> is_digit(s@[k]));
        }
    }
    let q = if p < s.len() && s[p] == '.' {
        digits_end_exec(s, p + 1)
    } else {
        p
    };
    if q != p && q == p + 1 {
        return None;
    }
    let r0 = if q < s.len() && (s[q] == 'e' || s[q] == 'E') {
        if q + 1 < s.len() && (s[q + 1] == '+' || s[q + 1] == '-') {
            q + 2
        } else {
            q + 1
        }
    } else {
        q
    };
    let e = if r0 == q {
        q
    } else {
        digits_end_exec(s, r0)
    };
    if e == r0 && r0 != q {
        return None;
    }
    if q == p && e == q {
        // a plain integer in s[m .. p], sign at i when negative
        let mut acc: u128 = 0;
        let mut ovf = false;
        let mut j = m;
        while j < p
            invariant
                m <= j <= p <= s@.len(),
                forall|k: int| m <= k < p ==> is_digit(s@[k]),
                !ovf ==> acc as int == digits_val(s@, m as int, j as int) && acc
                    <= 0xFFFFFFFFFFFFFFFFu128,
                ovf ==> digits_val(s@, m as int, j as int) > 0xFFFFFFFFFFFFFFFF,
            decreases p - j,
        {
            let dv: u128 = ((s[j] as u32) - 0x30) as u128;
            if ovf {
                proof {
                    lemma_digits_val_mono(s@, m as int, j as int, j as int + 1);
                    lemma_digits_val_nonneg(s@, m as int, j as int);
                    assert(digits_val(s@, m as int, j as int + 1) == digits_val(
                        s@,
                        m as int,
                        j as int,
                    ) * 10 + digit_val(s@[j as int]));
                    assert(digits_val(s@, m as int, j as int) * 10 >= digits_val(
                        s@,
                        m as int,
                        j as int,
                    ));
                }
            } else {
                let acc2 = acc * 10 + dv;
                if acc2 > 0xFFFFFFFFFFFFFFFFu128 {
                    ovf = true;
                    acc = acc2;
                } else {
                    acc = acc2;
                }
            }
            j = j + 1;
        }
        if ovf {
            proof {
                lemma_digits_val_nonneg(s@, m as int, p as int);
            }
            let lit = copy_range(s, i, p);
            return Some((Json::NumLit(lit), p));
        }
        if neg {
            if acc <= 0x8000000000000000u128 {
                let n: i64 = if acc == 0x8000000000000000u128 {
                    i64::MIN
                } else {
                    -((acc as u64) as i64)
                };
                return Some((Json::Int(n), p));
            } else {
                let lit = copy_range(s, i, p);
                return Some((Json::NumLit(lit), p));
            }
        } else {
            if acc <= 0x7FFFFFFFFFFFFFFFu128 {
                let n: i64 = (acc as u64) as i64;
                return Some((Json::Int(n), p));
            } else {
                let lit = copy_range(s, i, p);
                return Some((Json::NumLit(lit), p));
            }
        }
    } else {
        let lit = copy_range(s, i, e);
        return Some((Json::NumLit(lit), e));
    }
}

proof fn lemma_jv_items_single(out: Vec<Json>, x: Json)
    requires
        out@ == seq![x],
    ensures
        jv_items(out, 0) == seq![jv(x)],
{
    assert(jv_items(out, 1) == Seq::<JsonV>::empty());
    assert(jv_items(out, 0) =~= seq![jv(x)]);
}

proof fn lemma_jv_items_cons(out: Vec<Json>, rest: Vec<Json>, x: Json)
    requires
        out@ == rest@.insert(0, x),
    ensures
        jv_items(out, 0) == seq![jv(x)] + jv_items(rest, 0),
{
    lemma_jv_items_index(out, 0);
    lemma_jv_items_index(rest, 0);
    let lhs = jv_items(out, 0);
    let rhs = seq![jv(x)] + jv_items(rest, 0);
    assert(out@.len() == rest@.len() + 1);
    assert(out@[0] == x);
    assert(lhs.len() == rhs.len());
    assert forall|k: int| 0 <= k < lhs.len() implies lhs[k] == rhs[k] by {
        if k == 0 {
            assert(lhs[0] == jv(out@[0]));
        } else {
            assert(out@[k] == rest@[k - 1]);
            assert(lhs[k] == jv(out@[k]));
            assert(rhs[k] == jv_items(rest, 0)[k - 1]);
        }
    }
    assert(lhs =~= rhs);
}

proof fn lemma_jv_members_single(out: Vec<(Vec<char>, Json)>, x: (Vec<char>, Json))
    requires
        out@ == seq![x],
    ensures
        jv_members(out, 0) == seq![(x.0@, jv(x.1))],
{
    assert(jv_members(out, 1) == Seq::<(Seq<char>, JsonV)>::empty());
    assert(jv_members(out, 0) =~= seq![(x.0@, jv(x.1))]);
}

proof fn lemma_jv_members_cons(
    out: Vec<(Vec<char>, Json)>,
    rest: Vec<(Vec<char>, Json)>,
    x: (Vec<char>, Json),
)
    requires
        out@ == rest@.insert(0, x),
    ensures
        jv_members(out, 0) == seq![(x.0@, jv(x.1))] + jv_members(rest, 0),
{
    lemma_jv_members_index(out, 0);
    lemma_jv_members_index(rest, 0);
    let lhs = jv_members(out, 0);
    let rhs = seq![(x.0@, jv(x.1))] + jv_members(rest, 0);
    assert(out@.len() == rest@.len() + 1);
    assert(out@[0] == x);
    assert(lhs.len() == rhs.len());
    assert forall|k: int| 0 <= k < lhs.len() implies lhs[k] == rhs[k] by {
        if k == 0 {
            assert(lhs[0] == (out@[0].0@, jv(out@[0].1)));
        } else {
            assert(out@[k] == rest@[k - 1]);
            assert(lhs[k] == (out@[k].0@, jv(out@[k].1)));
            assert(rhs[k] == jv_members(rest, 0)[k - 1]);
        }
    }
    assert(lhs =~= rhs);
}

/// Parses one JSON value at or after `i`, leading whitespace skipped.
fn parse_value(s: &Vec<char>, i: usize, Ghost(fuel): Ghost<nat>) -> (r: Option<(Json, usize)>)
    requires
        i <= s@.len(),
        fuel >= s@.len() - i + 1,
    ensures
        match r {
            Some(p) => sp_value(s@, i as int, fuel) == Some((p.0@, p.1 as int)) && i < p.1
                <= s@.len(),
            None => sp_value(s@, i as int, fuel) is None,
        },
    decreases fuel, 0int,
{
    let i1 = skip_ws_exec(s, i);
    if i1 >= s.len() {
        return None;
    }
    let c = s[i1];
    if c == 'n' {
        if s.len() - i1 >= 4 && s[i1 + 1] == 'u' && s[i1 + 2] == 'l' && s[i1 + 3] == 'l' {
            Some((Json::Null, i1 + 4))
        } else {
            None
        }
    } else if c == 't' {
        if s.len() - i1 >= 4 && s[i1 + 1] == 'r' && s[i1 + 2] == 'u' && s[i1 + 3] == 'e' {
            Some((Json::Bool(true), i1 + 4))
        } else {
            None
        }
    } else if c == 'f' {
        if s.len() - i1 >= 5 && s[i1 + 1] == 'a' && s[i1 + 2] == 'l' && s[i1 + 3] == 's' && s[i1
            + 4] == 'e' {
            Some((Json::Bool(false), i1 + 5))
        } else {
            None
        }
    } else if c == '"' {
        match parse_str_body(s, i1 + 1) {
            Some((cs, k)) => Some((Json::Str(cs), k)),
            None => None,
        }
    } else if c == '-' || is_digit_exec(c) {
        match parse_number(s, i1) {
            Some((v, k)) => Some((v, k)),
            None => None,
        }
    } else if c == '[' {
        let k = skip_ws_exec(s, i1 + 1);
        if k < s.len() && s[k] == ']' {
            let out: Vec<Json> = Vec::new();
            assert(jv_items(out, 0) == Seq::<JsonV>::empty());
            Some((Json::Arr(out), k + 1))
        } else {
            match parse_elems(s, i1 + 1, Ghost((fuel - 1) as nat)) {
                Some((items, k2)) => Some((Json::Arr(items), k2 + 1)),
                None => None,
            }
        }
    } else if c == '{' {
        let k = skip_ws_exec(s, i1 + 1);
        if k < s.len() && s[k] == '}' {
            let out: Vec<(Vec<char>, Json)> = Vec::new();
            assert(jv_members(out, 0) == Seq::<(Seq<char>, JsonV)>::empty());
            Some((Json::Obj(out), k + 1))
        } else {
            match parse_members(s, i1 + 1, Ghost((fuel - 1) as nat)) {
                Some((members, k2)) => Some((Json::Obj(members), k2 + 1)),
                None => None,
            }
        }
    } else {
        None
    }
}

/// Parses one or more comma-separated array elements, up to the closing
/// bracket.
fn parse_elems(s: &Vec<char>, i: usize, Ghost(fuel): Ghost<nat>) -> (r: Option<(Vec<Json>, usize)>)
    requires
        i <= s@.len(),
        fuel >= s@.len() - i + 1,
    ensures
        match r {
            Some(p) => sp_elems(s@, i as int, fuel) == Some((jv_items(p.0, 0), p.1 as int)) && i
                < p.1 < s@.len(),
            None => sp_elems(s@, i as int, fuel) is None,
        },
    decreases fuel, 1int,
{
    match parse_value(s, i, Ghost(fuel)) {
        None => None,
        Some((v, j)) => {
            let k = skip_ws_exec(s, j);
            if k < s.len() && s[k] == ',' {
                match parse_elems(s, k + 1, Ghost((fuel - 1) as nat)) {
                    Some((rest, e)) => {
                        let ghost grest = rest;
                        let mut out = rest;
                        out.insert(0, v);
                        proof {
                            lemma_jv_items_cons(out, grest, v);
                        }
                        Some((out, e))
                    },
                    None => None,
                }
            } else if k < s.len() && s[k] == ']' {
                let mut out: Vec<Json> = Vec::new();
                out.push(v);
                proof {
                    assert(out@ =~= seq![v]);
                    lemma_jv_items_single(out, v);
                }
                Some((out, k))
            } else {
                None
            }
        },
    }
}

/// Parses one or more comma-separated object members, up to the closing
/// brace.
fn parse_members(s: &Vec<char>, i: usize, Ghost(fuel): Ghost<nat>) -> (r: Option<
    (Vec<(Vec<char>, Json)>, usize),
>)
    requires
        i <= s@.len(),
        fuel >= s@.len() - i + 1,
    ensures
        match r {
            Some(p) => sp_members(s@, i as int, fuel) == Some((jv_members(p.0, 0), p.1 as int))
                && i < p.1 < s@.len(),
            None => sp_members(s@, i as int, fuel) is None,
        },
    decreases fuel, 1int,
{
    let k = skip_ws_exec(s, i);
    if k >= s.len() || !(s[k] == '"') {
        return None;
    }
    match parse_str_body(s, k + 1) {
        None => None,
        Some((key, j)) => {
            let c = skip_ws_exec(s, j);
            if c < s.len() && s[c] == ':' {
                match parse_value(s, c + 1, Ghost(fuel)) {
                    Some((v, j2)) => {
                        let k2 = skip_ws_exec(s, j2);
                        if k2 < s.len() && s[k2] == ',' {
                            match parse_members(s, k2 + 1, Ghost((fuel - 1) as nat)) {
                                Some((rest, e)) => {
                                    let ghost grest = rest;
                                    let mut out = rest;
                                    out.insert(0, (key, v));
                                    proof {
                                        lemma_jv_members_cons(out, grest, out@[0]);
                                    }
                                    Some((out, e))
                                },
                                None => None,
                            }
                        } else if k2 < s.len() && s[k2] == '}' {
                            let mut out: Vec<(Vec<char>, Json)> = Vec::new();
                            out.push((key, v));
                            proof {
                                assert(out@ =~= seq![out@[0]]);
                                lemma_jv_members_single(out, out@[0]);
                            }
                            Some((out, k2))
                        } else {
                            None
                        }
                    },
                    None => None,
                }
            } else {
                None
            }
        },
    }
}

/// Parses one line of text as a JSON value, whitespace around it allowed.
pub fn decode_chars(s: &Vec<char>) -> (r: Option<Json>)
    ensures
        match r {
            Some(j) => sp_decode(s@) == Some(j@),
            None => sp_decode(s@) is None,
        },
{
    match parse_value(s, 0, Ghost((s@.len() + 1) as nat)) {
        Some((v, k)) => {
            let e = skip_ws_exec(s, k);
            if e == s.len() {
                Some(v)
            } else {
                None
            }
        },
        None => None,
    }
}

/// The characters of a string slice, in order.
pub fn str_to_chars(s: &str) -> (v: Vec<char>)
    ensures
        v@ == s@,
{
    let n = s.unicode_len();
    let mut v: Vec<char> = Vec::new();
    let mut i: usize = 0;
    while i < n
        invariant
            0 <= i <= n,
            n == s@.len(),
            v@ == s@.take(i as int),
        decreases n - i,
    {
        v.push(s.get_char(i));
        assert(v@ =~= s@.take(i as int + 1));
        i = i + 1;
    }
    assert(v@ =~= s@);
    v
}

/// Parses one line of text as a JSON value.
pub fn decode(line: &str) -> (r: Option<Json>)
    ensures
        match r {
            Some(j) => sp_decode(line@) == Some(j@),
            None => sp_decode(line@) is None,
        },
{
    let chars = str_to_chars(line);
    decode_chars(&chars)
}


// ---------------------------------------------------------------------------
// Construction helpers
// ---------------------------------------------------------------------------
/// An exact copy of a character vector.
pub fn clone_chars(v: &Vec<char>) -> (o: Vec<char>)
    ensures
        o@ == v@,
{
    let mut o: Vec<char> = Vec::new();
    let mut i: usize = 0;
    while i < v.len()
        invariant
            0 <= i <= v@.len(),
            o@ == v@.take(i as int),
        decreases v@.len() - i,
    {
        o.push(v[i]);
        assert(o@ =~= v@.take(i as int + 1));
        i = i + 1;
    }
    assert(o@ =~= v@);
    o
}

proof fn lemma_jv_items_push(v: Vec<Json>, out: Vec<Json>, x: Json)
    requires
        out@ == v@.push(x),
    ensures
        jv_items(out, 0) == jv_items(v, 0).push(jv(x)),
    decreases v@.len(),
{
    lemma_jv_items_index(out, 0);
    lemma_jv_items_index(v, 0);
    let lhs = jv_items(out, 0);
    let rhs = jv_items(v, 0).push(jv(x));
    assert(lhs.len() == rhs.len());
    assert forall|k: int| 0 <= k < lhs.len() implies lhs[k] == rhs[k] by {
        assert(lhs[k] == jv(out@[k]));
        if k < v@.len() {
            assert(out@[k] == v@[k]);
            assert(rhs[k] == jv_items(v, 0)[k]);
        } else {
            assert(out@[k] == x);
        }
    }
    assert(lhs =~= rhs);
}

proof fn lemma_jv_members_push(v: Vec<(Vec<char>, Json)>, out: Vec<(Vec<char>, Json)>, x: (Vec<char>, Json))
    requires
        out@ == v@.push(x),
    ensures
        jv_members(out, 0) == jv_members(v, 0).push((x.0@, jv(x.1))),
{
    lemma_jv_members_index(out, 0);
    lemma_jv_members_index(v, 0);
    let lhs = jv_members(out, 0);
    let rhs = jv_members(v, 0).push((x.0@, jv(x.1)));
    assert(lhs.len() == rhs.len());
    assert forall|k: int| 0 <= k < lhs.len() implies lhs[k] == rhs[k] by {
        assert(lhs[k] == (out@[k].0@, jv(out@[k].1)));
        if k < v@.len() {
            assert(out@[k] == v@[k]);
            assert(rhs[k] == jv_members(v, 0)[k]);
        } else {
            assert(out@[k] == x);
        }
    }
    assert(lhs =~= rhs);
}

/// An exact copy of a JSON value.
pub fn clone_json(j: &Json) -> (o: Json)
    ensures
        o@ == j@,
    decreases j,
{
    match j {
        Json::Null => Json::Null,
        Json::Bool(b) => Json::Bool(*b),
        Json::Int(n) => Json::Int(*n),
        Json::NumLit(s) => Json::NumLit(clone_chars(s)),
        Json::Str(s) => Json::Str(clone_chars(s)),
        Json::Arr(items) => {
            proof {
                lemma_jv_items_index(*items, 0);
            }
            let mut out: Vec<Json> = Vec::new();
            let mut i: usize = 0;
            while i < items.len()
                invariant
                    *j == Json::Arr(*items),
                    0 <= i <= items@.len(),
                    jv_items(out, 0) == jv_items(*items, 0).take(i as int),
                    jv_items(*items, 0).len() == items@.len(),
                    forall|k: int| 0 <= k < items@.len() ==> jv_items(*items, 0)[k] == jv(
                        items@[k],
                    ),
                decreases items@.len() - i,
            {
                proof {
                    broadcast use vstd::std_specs::vec::group_vec_axioms;

                    assert(decreases_to!(*j => (*j)->Arr_0));
                    assert(decreases_to!(*items => items@));
                    assert(decreases_to!(items@ => items@[i as int]));
                }
                let ghost pre = out;
                let c = clone_json(&items[i]);
                out.push(c);
                proof {
                    lemma_jv_items_push(pre, out, c);
                    assert(jv_items(out, 0) =~= jv_items(*items, 0).take(i as int + 1));
                }
                i = i + 1;
            }
            proof {
                assert(jv_items(out, 0) =~= jv_items(*items, 0));
            }
            Json::Arr(out)
        },
        Json::Obj(members) => {
            proof {
                lemma_jv_members_index(*members, 0);
            }
            let mut out: Vec<(Vec<char>, Json)> = Vec::new();
            let mut i: usize = 0;
            while i < members.len()
                invariant
                    *j == Json::Obj(*members),
                    0 <= i <= members@.len(),
                    jv_members(out, 0) == jv_members(*members, 0).take(i as int),
                    jv_members(*members, 0).len() == members@.len(),
                    forall|k: int| 0 <= k < members@.len() ==> jv_members(*members, 0)[k] == (
                    members@[k].0@,
                    jv(members@[k].1),
                    ),
                decreases members@.len() - i,
            {
                proof {
                    broadcast use vstd::std_specs::vec::group_vec_axioms;

                    assert(decreases_to!(*j => (*j)->Obj_0));
                    assert(decreases_to!(*members => members@));
                    assert(decreases_to!(members@ => members@[i as int]));
                    assert(decreases_to!(members@[i as int] => members@[i as int].1));
                }
                let ghost pre = out;
                let k = clone_chars(&members[i].0);
                let c = clone_json(&members[i].1);
                out.push((k, c));
                proof {
                    lemma_jv_members_push(pre, out, (k, c));
                    assert(jv_members(out, 0) =~= jv_members(*members, 0).take(i as int + 1));
                }
                i = i + 1;
            }
            proof {
                assert(jv_members(out, 0) =~= jv_members(*members, 0));
            }
            Json::Obj(out)
        },
    }
}

/// A JSON string value holding the characters of `s`.
pub fn js_str(s: &str) -> (j: Json)
    ensures
        j@ == JsonV::Str(s@),
{
    Json::Str(str_to_chars(s))
}

/// An empty JSON object.
pub fn obj_new() -> (j: Json)
    ensures
        j@ == JsonV::Obj(Seq::empty()),
{
    let out: Vec<(Vec<char>, Json)> = Vec::new();
    assert(jv_members(out, 0) == Seq::<(Seq<char>, JsonV)>::empty());
    Json::Obj(out)
}

/// Appends one member to a JSON object.
pub fn obj_add(j: Json, key: &str, v: Json) -> (o: Json)
    requires
        j@ is Obj,
    ensures
        o@ == JsonV::Obj(j@->Obj_0.push((key@, v@))),
{
    match j {
        Json::Obj(mut members) => {
            let ghost pre = members;
            let kc = str_to_chars(key);
            let ghost kcg = kc;
            members.push((kc, v));
            proof {
                lemma_jv_members_push(pre, members, (kcg, v));
            }
            Json::Obj(members)
        },
        _ => {
            proof {
                assert(false);
            }
            Json::Null
        },
    }
}

/// An empty JSON array.
pub fn arr_new() -> (j: Json)
    ensures
        j@ == JsonV::Arr(Seq::empty()),
{
    let out: Vec<Json> = Vec::new();
    assert(jv_items(out, 0) == Seq::<JsonV>::empty());
    Json::Arr(out)
}

/// Appends one element to a JSON array.
pub fn arr_add(j: Json, v: Json) -> (o: Json)
    requires
        j@ is Arr,
    ensures
        o@ == JsonV::Arr(j@->Arr_0.push(v@)),
{
    match j {
        Json::Arr(mut items) => {
            let ghost pre = items;
            items.push(v);
            proof {
                lemma_jv_items_push(pre, items, v);
            }
            Json::Arr(items)
        },
        _ => {
            proof {
                assert(false);
            }
            Json::Null
        },
    }
}


/// Relies on `String::from_iter` over characters: the string holds exactly
/// the given characters in order.
#[verifier::external_body]
pub fn chars_to_string(v: &Vec<char>) -> (s: String)
    ensures
        s@ == v@,
{
    v.iter().collect()
}


// ---------------------------------------------------------------------------
// Round trip: the parser recovers whatever the serializer emits
// ---------------------------------------------------------------------------
/// A value the serializer can emit and the parser provably recovers: no raw
/// numeric lexemes, and integers within the executable range.
pub open spec fn wf_json(j: JsonV) -> bool
    decreases j, 0int,
{
    match j {
        JsonV::Null => true,
        JsonV::Bool(b) => true,
        JsonV::Int(n) => -0x8000000000000000 <= n <= 0x7fffffffffffffff,
        JsonV::NumLit(s) => false,
        JsonV::Str(cs) => true,
        JsonV::Arr(items) => wf_items(items, 0),
        JsonV::Obj(members) => wf_members(members, 0),
    }
}

/// Well-formedness of array elements from index `i` on.
pub open spec fn wf_items(items: Seq<JsonV>, i: int) -> bool
    decreases items, items.len() - i,
{
    if i < 0 || i >= items.len() {
        true
    } else {
        wf_json(items[i]) && wf_items(items, i + 1)
    }
}

/// Well-formedness of object members from index `i` on.
pub open spec fn wf_members(members: Seq<(Seq<char>, JsonV)>, i: int) -> bool
    decreases members, members.len() - i,
{
    if i < 0 || i >= members.len() {
        true
    } else {
        wf_json(members[i].1) && wf_members(members, i + 1)
    }
}

/// The characters `t` stand at position `i` of `s`.
pub open spec fn region(s: Seq<char>, i: int, t: Seq<char>) -> bool {
    &&& 0 <= i
    &&& i + t.len() <= s.len()
    &&& forall|k: int| 0 <= k < t.len() ==> s[i + k] == t[k]
}

proof fn lemma_region_split(s: Seq<char>, i: int, t1: Seq<char>, t2: Seq<char>)
    requires
        region(s, i, t1 + t2),
    ensures
        region(s, i, t1),
        region(s, i + t1.len(), t2),
{
    assert forall|k: int| 0 <= k < t1.len() implies s[i + k] == t1[k] by {
        assert((t1 + t2)[k] == t1[k]);
    }
    assert forall|k: int| 0 <= k < t2.len() implies s[i + t1.len() + k] == t2[k] by {
        assert((t1 + t2)[t1.len() + k] == t2[k]);
    }
}

/// The characters a serialized value can start with.
pub open spec fn value_start(c: char) -> bool {
    c == 'n' || c == 't' || c == 'f' || c == '"' || c == '-' || is_digit(c) || c == '['
        || c == '{'
}

/// The characters that may legally follow a serialized value inside a
/// document: a separator, a closing bracket or brace.
pub open spec fn is_delim(c: char) -> bool {
    c == ',' || c == ']' || c == '}'
}

proof fn lemma_dec_digits_digits(n: nat)
    ensures
        dec_digits(n).len() >= 1,
        forall|k: int| 0 <= k < dec_digits(n).len() ==> is_digit(#[trigger] dec_digits(n)[k]),
        is_digit(dec_digits(n)[0]),
        n >= 10 ==> dec_digits(n).len() >= 2,
        n >= 1 ==> dec_digits(n)[0] != '0',
    decreases n,
{
    if n < 10 {
        assert(is_digit(dec_digit(n as int)));
        assert(n >= 1 ==> dec_digit(n as int) != '0');
    } else {
        lemma_dec_digits_digits(n / 10);
        let pre = dec_digits(n / 10);
        let d = dec_digit((n % 10) as int);
        assert(is_digit(d));
        assert forall|k: int| 0 <= k < dec_digits(n).len() implies is_digit(
            #[trigger] dec_digits(n)[k],
        ) by {
            if k < pre.len() {
                assert(dec_digits(n)[k] == pre[k]);
            } else {
                assert(dec_digits(n)[k] == d);
            }
        }
        assert(dec_digits(n)[0] == pre[0]);
    }
}

proof fn lemma_digit_val_of_dec_digit(d: int)
    requires
        0 <= d < 10,
    ensures
        digit_val(dec_digit(d)) == d,
        is_digit(dec_digit(d)),
{
}

/// Parsing the digit run that `dec_digits` wrote yields the number back.
proof fn lemma_digits_val_of_dec(s: Seq<char>, m: int, mag: nat)
    requires
        region(s, m, dec_digits(mag)),
    ensures
        digits_val(s, m, m + dec_digits(mag).len()) == mag,
    decreases mag,
{
    let t = dec_digits(mag);
    if mag < 10 {
        assert(s[m] == t[0]);
        lemma_digit_val_of_dec_digit(mag as int);
        assert(digits_val(s, m, m) == 0);
        assert(digits_val(s, m, m + 1) == digits_val(s, m, m) * 10 + digit_val(s[m]));
    } else {
        let pre = dec_digits(mag / 10);
        let d = dec_digit((mag % 10) as int);
        assert(t == pre + seq![d]);
        lemma_region_split(s, m, pre, seq![d]);
        lemma_digits_val_of_dec(s, m, mag / 10);
        lemma_digit_val_of_dec_digit((mag % 10) as int);
        assert(s[m + pre.len() + 0] == seq![d][0]);
        assert(s[m + pre.len()] == d);
        assert(t.len() == pre.len() + 1);
        assert(digits_val(s, m, m + t.len()) == digits_val(s, m, m + t.len() - 1) * 10 + digit_val(
            s[m + t.len() - 1],
        ));
    }
}

/// The digit run that `dec_digits` wrote ends exactly where a non-digit (or
/// the end of input) follows.
proof fn lemma_digits_end_of_region(s: Seq<char>, m: int, t: Seq<char>)
    requires
        region(s, m, t),
        t.len() >= 1,
        forall|k: int| 0 <= k < t.len() ==> is_digit(#[trigger] t[k]),
        m + t.len() == s.len() || !is_digit(s[m + t.len()]),
    ensures
        digits_end(s, m) == m + t.len(),
    decreases t.len(),
{
    assert(s[m + 0] == t[0]);
    assert(is_digit(s[m]));
    if t.len() == 1 {
        assert(m + 1 == s.len() || !is_digit(s[m + 1]));
        if m + 1 < s.len() {
            assert(digits_end(s, m + 1) == m + 1);
        } else {
            assert(digits_end(s, m + 1) == m + 1);
        }
        assert(digits_end(s, m) == digits_end(s, m + 1));
    } else {
        lemma_region_split(s, m, seq![t[0]], t.drop_first());
        assert forall|k: int| 0 <= k < t.drop_first().len() implies is_digit(
            #[trigger] t.drop_first()[k],
        ) by {
            assert(t.drop_first()[k] == t[k + 1]);
        }
        lemma_digits_end_of_region(s, m + 1, t.drop_first());
    }
}

proof fn lemma_hex_val_of_hex_digit(d: int)
    requires
        0 <= d < 16,
    ensures
        hex_val(hex_digit(d)) == d,
{
}

proof fn lemma_skip_ws_at(s: Seq<char>, i: int)
    requires
        0 <= i < s.len(),
        !is_ws(s[i]),
    ensures
        skip_ws(s, i) == i,
{
}

/// Parsing the string body that `ser_str_body` wrote (with its closing
/// quote) yields the remaining content back.
#[verifier::rlimit(60)]
proof fn lemma_parse_ser_str_body(s: Seq<char>, i: int, cs: Seq<char>, k: int)
    requires
        0 <= k <= cs.len(),
        region(s, i, ser_str_body(cs, k) + seq!['"']),
    ensures
        sp_str_body(s, i) == Some((cs.subrange(k, cs.len() as int), i + ser_str_body(cs, k).len() + 1)),
    decreases cs.len() - k,
{
    let body = ser_str_body(cs, k);
    if k == cs.len() {
        assert(body.len() == 0);
        assert(s[i] == (body + seq!['"'])[0]);
        assert(s[i] == '"');
        assert(cs.subrange(k, cs.len() as int) =~= Seq::<char>::empty());
    } else {
        let c = cs[k];
        let e = esc_char(c);
        let rest = ser_str_body(cs, k + 1);
        assert(body == e + rest);
        assert((e + rest) + seq!['"'] =~= e + (rest + seq!['"']));
        lemma_region_split(s, i, e, rest + seq!['"']);
        lemma_parse_ser_str_body(s, i + e.len(), cs, k + 1);
        assert(seq![c] + cs.subrange(k + 1, cs.len() as int) =~= cs.subrange(k, cs.len() as int));
        if c == '"' {
            assert(s[i] == e[0] && s[i + 1] == e[1]);
            assert(sp_str_body(s, i) == sp_cons('"', sp_str_body(s, i + 2)));
        } else if c == '\\' {
            assert(s[i] == e[0] && s[i + 1] == e[1]);
            assert(sp_str_body(s, i) == sp_cons('\\', sp_str_body(s, i + 2)));
        } else if c == '\n' {
            assert(s[i] == e[0] && s[i + 1] == e[1]);
            assert(sp_str_body(s, i) == sp_cons('\n', sp_str_body(s, i + 2)));
        } else if c == '\r' {
            assert(s[i] == e[0] && s[i + 1] == e[1]);
            assert(sp_str_body(s, i) == sp_cons('\r', sp_str_body(s, i + 2)));
        } else if c == '\t' {
            assert(s[i] == e[0] && s[i + 1] == e[1]);
            assert(sp_str_body(s, i) == sp_cons('\t', sp_str_body(s, i + 2)));
        } else if (c as u32) < 0x20 {
            let cu = c as u32 as int;
            assert(e.len() == 6);
            assert(s[i + 0] == e[0] && s[i + 1] == e[1] && s[i + 2] == e[2] && s[i + 3] == e[3]
                && s[i + 4] == e[4] && s[i + 5] == e[5]);
            assert(s[i] == '\\' && s[i + 1] == 'u' && s[i + 2] == '0' && s[i + 3] == '0');
            assert(s[i + 4] == hex_digit(cu / 16) && s[i + 5] == hex_digit(cu % 16));
            assert(0 <= cu < 32);
            lemma_hex_val_of_hex_digit(cu / 16);
            lemma_hex_val_of_hex_digit(cu % 16);
            assert(hex_val(s[i + 2]) == 0 && hex_val(s[i + 3]) == 0);
            assert(i + 6 <= s.len());
            assert(hex4(s, i + 2) == hex_val(s[i + 2]) * 4096 + hex_val(s[i + 3]) * 256 + hex_val(
                s[i + 4],
            ) * 16 + hex_val(s[i + 5]));
            assert(hex4(s, i + 2) == (cu / 16) * 16 + cu % 16);
            assert(hex4(s, i + 2) == cu);
            let h = hex4(s, i + 2);
            assert(!(h < 0 || (0xD800 <= h < 0xE000)));
            assert((h as u32) == c as u32);
            vstd::utf8::char_u32_cast(c, c as u32);
            assert((h as u32) as char == c);
            assert(sp_str_body(s, i) == sp_cons(c, sp_str_body(s, i + 6)));
        } else {
            assert(e.len() == 1);
            assert(s[i + 0] == e[0]);
            assert(s[i] == c);
            assert(c != '"' && c != '\\' && !((c as u32) < 0x20));
            assert(sp_str_body(s, i) == sp_cons(c, sp_str_body(s, i + 1)));
        }
    }
}


/// The first character of a serialized value marks a value: it is never
/// whitespace, a separator, or a closer.
proof fn lemma_ser_first(j: JsonV)
    requires
        wf_json(j),
    ensures
        ser(j).len() >= 1,
        value_start(ser(j)[0]),
        !is_ws(ser(j)[0]),
        ser(j)[0] != ']' && ser(j)[0] != '}' && ser(j)[0] != ',' && ser(j)[0] != ':',
{
    match j {
        JsonV::Int(n) => {
            if n < 0 {
                assert(ser(j)[0] == '-');
            } else {
                lemma_dec_digits_digits(n as nat);
                assert(ser(j)[0] == dec_digits(n as nat)[0]);
            }
        },
        _ => {},
    }
}

/// Parsing the text that `ser_int` wrote yields the integer back.
proof fn lemma_parse_ser_int(s: Seq<char>, i: int, n: int)
    requires
        -0x8000000000000000 <= n <= 0x7fffffffffffffff,
        region(s, i, ser_int(n)),
        i + ser_int(n).len() == s.len() || is_delim(s[i + ser_int(n).len()]),
    ensures
        sp_number(s, i) == Some((JsonV::Int(n), i + ser_int(n).len())),
{
    let t = ser_int(n);
    let mag: nat = if n < 0 {
        (-n) as nat
    } else {
        n as nat
    };
    let d = dec_digits(mag);
    lemma_dec_digits_digits(mag);
    let m: int = if n < 0 {
        i + 1
    } else {
        i
    };
    if n < 0 {
        assert(t == seq!['-'] + d);
        lemma_region_split(s, i, seq!['-'], d);
        assert(s[i + 0] == seq!['-'][0]);
        assert(s[i] == '-');
    } else {
        assert(s[i + 0] == t[0]);
        assert(s[i] == d[0]);
        assert(is_digit(s[i]));
        assert(s[i] != '-');
    }
    assert(region(s, m, d));
    assert(m + d.len() == i + t.len());
    assert(s[m + 0] == d[0]);
    assert(is_digit(s[m]));
    assert(m < s.len());
    assert(i + t.len() == s.len() || !is_digit(s[i + t.len()]));
    assert(i + t.len() == s.len() || s[i + t.len()] != '.');
    assert(i + t.len() == s.len() || (s[i + t.len()] != 'e' && s[i + t.len()] != 'E'));
    let p: int = if s[m] == '0' {
        m + 1
    } else {
        digits_end(s, m)
    };
    if s[m] == '0' {
        // the leading digit is zero only for the number zero itself
        assert(d[0] == '0');
        assert(mag == 0) by {
            if mag >= 1 {
                assert(d[0] != '0');
            }
        }
        assert(n == 0);
        assert(d.len() == 1);
        assert(p == i + t.len());
    } else {
        lemma_digits_end_of_region(s, m, d);
        assert(p == m + d.len());
        assert(p == i + t.len());
    }
    // no fraction and no exponent follow
    assert(p == s.len() || s[p] != '.');
    assert(p == s.len() || (s[p] != 'e' && s[p] != 'E'));
    lemma_digits_val_of_dec(s, m, mag);
    if s[m] == '0' {
        assert(digits_val(s, m, m) == 0);
        assert(digits_val(s, m, p) == digits_val(s, m, m) * 10 + digit_val(s[m]));
        lemma_digit_val_of_dec_digit(0);
        assert(s[m] == dec_digit(0));
        assert(digits_val(s, m, p) == 0);
    } else {
        assert(digits_val(s, m, p) == mag);
    }
    assert(digits_val(s, m, p) == mag);
    let sv: int = if s[i] == '-' {
        -(mag as int)
    } else {
        mag as int
    };
    assert(sv == n) by {
        if n < 0 {
            assert(s[i] == '-');
        } else {
            assert(s[i] != '-');
        }
    }
}


/// Parsing at the start of a serialized value yields that value and stops
/// right after it.
#[verifier::rlimit(80)]
proof fn lemma_parse_ser_at(s: Seq<char>, i: int, j: JsonV, fuel: nat)
    requires
        wf_json(j),
        region(s, i, ser(j)),
        i + ser(j).len() == s.len() || is_delim(s[i + ser(j).len()]),
        fuel >= s.len() - i + 1,
    ensures
        sp_value(s, i, fuel) == Some((j, i + ser(j).len())),
    decreases j, 0int,
{
    let t = ser(j);
    lemma_ser_first(j);
    assert(s[i + 0] == t[0]);
    lemma_skip_ws_at(s, i);
    assert(skip_ws(s, i) == i);
    assert(fuel >= 2);
    match j {
        JsonV::Null => {
            assert(s[i + 1] == t[1] && s[i + 2] == t[2] && s[i + 3] == t[3]);
        },
        JsonV::Bool(b) => {
            if b {
                assert(s[i + 1] == t[1] && s[i + 2] == t[2] && s[i + 3] == t[3]);
            } else {
                assert(s[i + 1] == t[1] && s[i + 2] == t[2] && s[i + 3] == t[3] && s[i + 4]
                    == t[4]);
            }
        },
        JsonV::Int(n) => {
            lemma_parse_ser_int(s, i, n);
            assert(s[i] == '-' || is_digit(s[i]));
            assert(s[i] != 'n' && s[i] != 't' && s[i] != 'f' && s[i] != '"');
            assert(sp_value(s, i, fuel) == sp_number(s, i));
        },
        JsonV::NumLit(lit) => {
            assert(false);
        },
        JsonV::Str(cs) => {
            let body = ser_str_body(cs, 0);
            assert(t == seq!['"'] + body + seq!['"']);
            assert((seq!['"'] + body + seq!['"']) =~= seq!['"'] + (body + seq!['"']));
            lemma_region_split(s, i, seq!['"'], body + seq!['"']);
            lemma_parse_ser_str_body(s, i + 1, cs, 0);
            assert(cs.subrange(0, cs.len() as int) =~= cs);
            assert(s[i] == '"');
            assert(sp_str_body(s, i + 1) == Some((cs, i + 1 + body.len() + 1)));
            assert(i + 1 + body.len() + 1 == i + t.len());
        },
        JsonV::Arr(items) => {
            let inner = ser_items(items, 0);
            assert(t == seq!['['] + inner + seq![']']);
            assert((seq!['['] + inner + seq![']']) =~= seq!['['] + (inner + seq![']']));
            lemma_region_split(s, i, seq!['['], inner + seq![']']);
            lemma_region_split(s, i + 1, inner, seq![']']);
            assert(s[i] == '[');
            assert(s[i + 1 + inner.len() + 0] == seq![']'][0]);
            assert(s[i + 1 + inner.len()] == ']');
            if items.len() == 0 {
                assert(inner.len() == 0);
                assert(s[i + 1] == ']');
                lemma_skip_ws_at(s, i + 1);
                assert(sp_value(s, i, fuel) == Some((JsonV::Arr(Seq::empty()), i + 2)));
                assert(items =~= Seq::<JsonV>::empty());
            } else {
                assert(inner == ser(items[0]) + (
                if 1 < items.len() {
                    seq![','] + ser_items(items, 1)
                } else {
                    Seq::<char>::empty()
                }));
                assert(wf_items(items, 0));
                assert(wf_json(items[0]));
                lemma_ser_first(items[0]);
                assert(inner[0] == ser(items[0])[0]);
                assert(s[i + 1 + 0] == inner[0]);
                assert(!is_ws(s[i + 1]) && s[i + 1] != ']');
                lemma_skip_ws_at(s, i + 1);
                lemma_parse_ser_elems(s, i + 1, items, 0, (fuel - 1) as nat);
                assert(items.subrange(0, items.len() as int) =~= items);
                assert(sp_elems(s, i + 1, (fuel - 1) as nat) == Some(
                    (items, i + 1 + inner.len()),
                ));
                assert(i + 1 + inner.len() + 1 == i + t.len());
            }
        },
        JsonV::Obj(members) => {
            let inner = ser_members(members, 0);
            assert(t == seq!['{'] + inner + seq!['}']);
            assert((seq!['{'] + inner + seq!['}']) =~= seq!['{'] + (inner + seq!['}']));
            lemma_region_split(s, i, seq!['{'], inner + seq!['}']);
            lemma_region_split(s, i + 1, inner, seq!['}']);
            assert(s[i] == '{');
            assert(s[i + 1 + inner.len() + 0] == seq!['}'][0]);
            assert(s[i + 1 + inner.len()] == '}');
            if members.len() == 0 {
                assert(inner.len() == 0);
                assert(s[i + 1] == '}');
                lemma_skip_ws_at(s, i + 1);
                assert(sp_value(s, i, fuel) == Some((JsonV::Obj(Seq::empty()), i + 2)));
                assert(members =~= Seq::<(Seq<char>, JsonV)>::empty());
            } else {
                assert(inner == ser_str(members[0].0) + seq![':'] + ser(members[0].1) + (
                if 1 < members.len() {
                    seq![','] + ser_members(members, 1)
                } else {
                    Seq::<char>::empty()
                }));
                assert(inner[0] == ser_str(members[0].0)[0]);
                assert(ser_str(members[0].0)[0] == '"');
                assert(s[i + 1 + 0] == inner[0]);
                assert(!is_ws(s[i + 1]) && s[i + 1] != '}');
                lemma_skip_ws_at(s, i + 1);
                lemma_parse_ser_members(s, i + 1, members, 0, (fuel - 1) as nat);
                assert(members.subrange(0, members.len() as int) =~= members);
                assert(sp_members(s, i + 1, (fuel - 1) as nat) == Some(
                    (members, i + 1 + inner.len()),
                ));
                assert(i + 1 + inner.len() + 1 == i + t.len());
            }
        },
    }
}

/// Parsing at the start of the serialized elements from `idx` on yields
/// those elements and stops at the closing bracket.
#[verifier::rlimit(80)]
proof fn lemma_parse_ser_elems(s: Seq<char>, i: int, items: Seq<JsonV>, idx: int, fuel: nat)
    requires
        0 <= idx < items.len(),
        wf_items(items, idx),
        region(s, i, ser_items(items, idx)),
        i + ser_items(items, idx).len() < s.len(),
        s[i + ser_items(items, idx).len()] == ']',
        fuel >= s.len() - i + 1,
    ensures
        sp_elems(s, i, fuel) == Some(
            (items.subrange(idx, items.len() as int), i + ser_items(items, idx).len()),
        ),
    decreases items, items.len() - idx,
{
    let t = ser_items(items, idx);
    let head = ser(items[idx]);
    assert(wf_json(items[idx]));
    lemma_ser_first(items[idx]);
    if idx + 1 < items.len() {
        let rest = seq![','] + ser_items(items, idx + 1);
        assert(t == head + rest);
        lemma_region_split(s, i, head, rest);
        lemma_region_split(s, i + head.len(), seq![','], ser_items(items, idx + 1));
        assert(s[i + head.len() + 0] == seq![','][0]);
        assert(s[i + head.len()] == ',');
        lemma_parse_ser_at(s, i, items[idx], fuel);
        let j1 = i + head.len();
        lemma_skip_ws_at(s, j1);
        assert(fuel >= 2);
        lemma_parse_ser_elems(s, j1 + 1, items, idx + 1, (fuel - 1) as nat);
        assert(sp_elems(s, j1 + 1, (fuel - 1) as nat) == Some(
            (items.subrange(idx + 1, items.len() as int), j1 + 1 + ser_items(items, idx + 1).len()),
        ));
        assert(seq![items[idx]] + items.subrange(idx + 1, items.len() as int) =~= items.subrange(
            idx,
            items.len() as int,
        ));
        assert(j1 + 1 + ser_items(items, idx + 1).len() == i + t.len());
    } else {
        assert(t == head);
        lemma_parse_ser_at(s, i, items[idx], fuel);
        let j1 = i + head.len();
        lemma_skip_ws_at(s, j1);
        assert(s[j1] == ']');
        assert(seq![items[idx]] =~= items.subrange(idx, items.len() as int));
    }
}

/// Parsing at the start of the serialized members from `idx` on yields those
/// members and stops at the closing brace.
#[verifier::rlimit(80)]
proof fn lemma_parse_ser_members(
    s: Seq<char>,
    i: int,
    members: Seq<(Seq<char>, JsonV)>,
    idx: int,
    fuel: nat,
)
    requires
        0 <= idx < members.len(),
        wf_members(members, idx),
        region(s, i, ser_members(members, idx)),
        i + ser_members(members, idx).len() < s.len(),
        s[i + ser_members(members, idx).len()] == '}',
        fuel >= s.len() - i + 1,
    ensures
        sp_members(s, i, fuel) == Some(
            (members.subrange(idx, members.len() as int), i + ser_members(members, idx).len()),
        ),
    decreases members, members.len() - idx,
{
    let t = ser_members(members, idx);
    let key = members[idx].0;
    let v = members[idx].1;
    let keytext = ser_str(key);
    let head = keytext + seq![':'] + ser(v);
    assert(wf_json(v));
    lemma_ser_first(v);
    let rest: Seq<char> = if idx + 1 < members.len() {
        seq![','] + ser_members(members, idx + 1)
    } else {
        Seq::<char>::empty()
    };
    assert(t == head + rest);
    lemma_region_split(s, i, head, rest);
    assert((keytext + seq![':'] + ser(v)) =~= keytext + (seq![':'] + ser(v)));
    lemma_region_split(s, i, keytext, seq![':'] + ser(v));
    lemma_region_split(s, i + keytext.len(), seq![':'], ser(v));
    assert(s[i + 0] == keytext[0]);
    assert(s[i] == '"');
    lemma_skip_ws_at(s, i);
    let body = ser_str_body(key, 0);
    assert(keytext == seq!['"'] + body + seq!['"']);
    assert((seq!['"'] + body + seq!['"']) =~= seq!['"'] + (body + seq!['"']));
    lemma_region_split(s, i, seq!['"'], body + seq!['"']);
    lemma_parse_ser_str_body(s, i + 1, key, 0);
    assert(key.subrange(0, key.len() as int) =~= key);
    let jk = i + keytext.len();
    assert(sp_str_body(s, i + 1) == Some((key, jk)));
    assert(s[jk + 0] == seq![':'][0]);
    assert(s[jk] == ':');
    lemma_skip_ws_at(s, jk);
    // the value region and what follows it
    let jv0 = jk + 1;
    assert(region(s, jv0, ser(v)));
    let j2 = jv0 + ser(v).len();
    if idx + 1 < members.len() {
        lemma_region_split(s, i + head.len(), seq![','], ser_members(members, idx + 1));
        assert(s[i + head.len() + 0] == seq![','][0]);
        assert(j2 == i + head.len());
        assert(s[j2] == ',');
        lemma_parse_ser_at(s, jv0, v, fuel);
        lemma_skip_ws_at(s, j2);
        assert(fuel >= 2);
        lemma_parse_ser_members(s, j2 + 1, members, idx + 1, (fuel - 1) as nat);
        assert(seq![(key, v)] + members.subrange(idx + 1, members.len() as int) =~= members.subrange(
            idx,
            members.len() as int,
        ));
        assert(j2 + 1 + ser_members(members, idx + 1).len() == i + t.len());
    } else {
        assert(t == head);
        assert(j2 == i + t.len());
        assert(s[j2] == '}');
        lemma_parse_ser_at(s, jv0, v, fuel);
        lemma_skip_ws_at(s, j2);
        assert(seq![(key, v)] =~= members.subrange(idx, members.len() as int));
    }
}

/// Law: the parser recovers whatever the serializer emits — decoding the
/// canonical serialization of any well-formed value yields that value.
pub proof fn lemma_round_trip(j: JsonV)
    requires
        wf_json(j),
    ensures
        sp_decode(ser(j)) == Some(j),
{
    let s = ser(j);
    lemma_ser_first(j);
    assert(region(s, 0, s));
    lemma_parse_ser_at(s, 0, j, (s.len() + 1) as nat);
    assert(skip_ws(s, s.len() as int) == s.len());
}


/// No newline anywhere in the text.
pub open spec fn no_newline(t: Seq<char>) -> bool {
    forall|k: int| 0 <= k < t.len() ==> t[k] != '\n'
}

proof fn lemma_no_nl_concat(a: Seq<char>, b: Seq<char>)
    requires
        no_newline(a),
        no_newline(b),
    ensures
        no_newline(a + b),
{
    assert forall|k: int| 0 <= k < (a + b).len() implies (a + b)[k] != '\n' by {
        if k < a.len() {
            assert((a + b)[k] == a[k]);
        } else {
            assert((a + b)[k] == b[k - a.len()]);
        }
    }
}

proof fn lemma_dec_digits_no_nl(n: nat)
    ensures
        no_newline(dec_digits(n)),
{
    lemma_dec_digits_digits(n);
    assert forall|k: int| 0 <= k < dec_digits(n).len() implies dec_digits(n)[k] != '\n' by {
        assert(is_digit(dec_digits(n)[k]));
    }
}

proof fn lemma_ser_str_body_no_nl(cs: Seq<char>, k: int)
    requires
        0 <= k <= cs.len(),
    ensures
        no_newline(ser_str_body(cs, k)),
    decreases cs.len() - k,
{
    if k < cs.len() {
        lemma_ser_str_body_no_nl(cs, k + 1);
        let e = esc_char(cs[k]);
        assert(no_newline(e)) by {
            let c = cs[k];
            if c == '"' || c == '\\' || c == '\n' || c == '\r' || c == '\t' {
            } else if (c as u32) < 0x20 {
                let cu = c as u32 as int;
                assert(is_digit(hex_digit(cu / 16)) || 0x61 <= hex_digit(cu / 16) as u32 <= 0x66);
                assert(is_digit(hex_digit(cu % 16)) || 0x61 <= hex_digit(cu % 16) as u32 <= 0x66);
            } else {
            }
        }
        lemma_no_nl_concat(e, ser_str_body(cs, k + 1));
    }
}

proof fn lemma_ser_str_no_nl(cs: Seq<char>)
    ensures
        no_newline(ser_str(cs)),
{
    lemma_ser_str_body_no_nl(cs, 0);
    lemma_no_nl_concat(seq!['"'], ser_str_body(cs, 0));
    lemma_no_nl_concat(seq!['"'] + ser_str_body(cs, 0), seq!['"']);
    assert(ser_str(cs) =~= (seq!['"'] + ser_str_body(cs, 0)) + seq!['"']);
}

/// Law: the serializer emits no embedded newline, so every encoded value is
/// one line.
pub proof fn lemma_ser_no_newline(j: JsonV)
    requires
        wf_json(j),
    ensures
        no_newline(ser(j)),
    decreases j, 0int,
{
    match j {
        JsonV::Null => {},
        JsonV::Bool(b) => {},
        JsonV::Int(n) => {
            lemma_dec_digits_no_nl(if n < 0 {
                (-n) as nat
            } else {
                n as nat
            });
            if n < 0 {
                lemma_no_nl_concat(seq!['-'], dec_digits((-n) as nat));
            }
        },
        JsonV::NumLit(lit) => {
            assert(false);
        },
        JsonV::Str(cs) => {
            lemma_ser_str_no_nl(cs);
        },
        JsonV::Arr(items) => {
            lemma_ser_items_no_nl(items, 0);
            lemma_no_nl_concat(seq!['['], ser_items(items, 0));
            lemma_no_nl_concat(seq!['['] + ser_items(items, 0), seq![']']);
            assert(ser(j) =~= (seq!['['] + ser_items(items, 0)) + seq![']']);
        },
        JsonV::Obj(members) => {
            lemma_ser_members_no_nl(members, 0);
            lemma_no_nl_concat(seq!['{'], ser_members(members, 0));
            lemma_no_nl_concat(seq!['{'] + ser_members(members, 0), seq!['}']);
            assert(ser(j) =~= (seq!['{'] + ser_members(members, 0)) + seq!['}']);
        },
    }
}

proof fn lemma_ser_items_no_nl(items: Seq<JsonV>, idx: int)
    requires
        wf_items(items, idx),
    ensures
        no_newline(ser_items(items, idx)),
    decreases items, items.len() - idx,
{
    if 0 <= idx < items.len() {
        lemma_ser_no_newline(items[idx]);
        if idx + 1 < items.len() {
            lemma_ser_items_no_nl(items, idx + 1);
            lemma_no_nl_concat(seq![','], ser_items(items, idx + 1));
            lemma_no_nl_concat(ser(items[idx]), seq![','] + ser_items(items, idx + 1));
            assert(ser_items(items, idx) =~= ser(items[idx]) + (seq![','] + ser_items(
                items,
                idx + 1,
            )));
        }
    }
}

proof fn lemma_ser_members_no_nl(members: Seq<(Seq<char>, JsonV)>, idx: int)
    requires
        wf_members(members, idx),
    ensures
        no_newline(ser_members(members, idx)),
    decreases members, members.len() - idx,
{
    if 0 <= idx < members.len() {
        lemma_ser_no_newline(members[idx].1);
        lemma_ser_str_no_nl(members[idx].0);
        let head = ser_str(members[idx].0) + seq![':'] + ser(members[idx].1);
        lemma_no_nl_concat(ser_str(members[idx].0), seq![':']);
        lemma_no_nl_concat(ser_str(members[idx].0) + seq![':'], ser(members[idx].1));
        if idx + 1 < members.len() {
            lemma_ser_members_no_nl(members, idx + 1);
            lemma_no_nl_concat(seq![','], ser_members(members, idx + 1));
            lemma_no_nl_concat(head, seq![','] + ser_members(members, idx + 1));
            assert(ser_members(members, idx) =~= head + (seq![','] + ser_members(
                members,
                idx + 1,
            )));
        } else {
            assert(ser_members(members, idx) =~= head);
        }
    }
}

} // verus!

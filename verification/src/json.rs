//! The portal's wire format: a JSON value type, a parser for response
//! text, and the escaping and number formatting used to build request
//! bodies.
//!
//! The parser covers the portal's responses: objects, arrays, strings
//! with backslash escapes (`\u` ones included), numbers, booleans and
//! null. A number that is a plain unsigned 64-bit integer becomes a
//! machine integer; any other number shape is kept as its text, so a
//! field the logic never reads cannot spoil a decode.

use vstd::prelude::*;
use vstd::string::StrSliceExecFns;
use vstd::string::StringExecFns;

verus! {

broadcast use vstd::seq::axiom_seq_index_decreases, vstd::std_specs::vec::axiom_vec_decreases_to_view;

/// A decoded JSON value.
pub enum Json {
    Null,
    Bool(bool),
    UInt(u64),
    /// A number that is not a plain unsigned 64-bit integer
    /// (negative, fractional, with an exponent, or out of range),
    /// kept as its text.
    NumText(String),
    Str(String),
    Arr(Vec<Json>),
    Obj(Vec<(String, Json)>),
}

/// Mathematical mirror of a decoded JSON value: texts as character
/// sequences, lists as sequences.
pub enum JsonV {
    Null,
    Bool(bool),
    UInt(u64),
    NumText(Seq<char>),
    Str(Seq<char>),
    Arr(Seq<JsonV>),
    Obj(Seq<(Seq<char>, JsonV)>),
}

/// The mirrors of a list of values, in order.
pub open spec fn items_deep(items: Seq<Json>) -> Seq<JsonV>
    decreases items,
{
    Seq::new(
        items.len(),
        |i: int|
            if 0 <= i < items.len() {
                items[i].deep()
            } else {
                JsonV::Null
            },
    )
}

/// The mirrors of a list of object members, in order.
pub open spec fn fields_deep(fields: Seq<(String, Json)>) -> Seq<(Seq<char>, JsonV)>
    decreases fields,
{
    Seq::new(
        fields.len(),
        |i: int|
            if 0 <= i < fields.len() {
                (fields[i].0@, fields[i].1.deep())
            } else {
                (Seq::empty(), JsonV::Null)
            },
    )
}

impl Json {
    /// The mathematical mirror of this value.
    pub open spec fn deep(self) -> JsonV
        decreases self,
    {
        match self {
            Json::Null => JsonV::Null,
            Json::Bool(b) => JsonV::Bool(b),
            Json::UInt(n) => JsonV::UInt(n),
            Json::NumText(t) => JsonV::NumText(t@),
            Json::Str(s) => JsonV::Str(s@),
            Json::Arr(items) => JsonV::Arr(items_deep(items@)),
            Json::Obj(fields) => JsonV::Obj(fields_deep(fields@)),
        }
    }
}

/// The value of the first member named `name`, if any.
pub open spec fn lookup(fields: Seq<(Seq<char>, JsonV)>, name: Seq<char>) -> Option<JsonV>
    decreases fields.len(),
{
    if fields.len() == 0 {
        None
    } else if fields[0].0 == name {
        Some(fields[0].1)
    } else {
        lookup(fields.drop_first(), name)
    }
}

/// Character-by-character string equality.
pub fn str_eq(a: &str, b: &str) -> (r: bool)
    ensures
        r == (a@ == b@),
{
    let an: usize = a.unicode_len();
    let bn: usize = b.unicode_len();
    if an != bn {
        proof {
            assert(a@ != b@);
        }
        return false;
    }
    let mut i: usize = 0;
    while i < an
        invariant
            0 <= i <= an,
            an == a@.len(),
            an == b@.len(),
            forall|k: int| 0 <= k < i ==> a@[k] == b@[k],
        decreases an - i,
    {
        if a.get_char(i) != b.get_char(i) {
            proof {
                assert(a@[i as int] != b@[i as int]);
            }
            return false;
        }
        i = i + 1;
    }
    proof {
        assert(a@ =~= b@);
    }
    true
}

/// The member of `fields` named `name`, if any.
pub fn get_field<'a>(fields: &'a Vec<(String, Json)>, name: &str) -> (r: Option<&'a Json>)
    ensures
        match r {
            Some(v) => lookup(fields_deep(fields@), name@) == Some(v.deep()),
            None => lookup(fields_deep(fields@), name@) is None,
        },
{
    let ghost d = fields_deep(fields@);
    let n: usize = fields.len();
    let mut i: usize = 0;
    proof {
        assert(d.skip(0) =~= d);
    }
    while i < n
        invariant
            n == fields@.len(),
            d == fields_deep(fields@),
            0 <= i <= n,
            lookup(d, name@) == lookup(d.skip(i as int), name@),
        decreases n - i,
    {
        proof {
            assert(d.skip(i as int)[0] == d[i as int]);
            assert(d[i as int] == (fields@[i as int].0@, fields@[i as int].1.deep()));
        }
        if str_eq(fields[i].0.as_str(), name) {
            return Some(&fields[i].1);
        }
        proof {
            assert(d.skip(i as int).drop_first() =~= d.skip(i as int + 1));
        }
        i = i + 1;
    }
    proof {
        assert(d.skip(n as int) =~= Seq::<(Seq<char>, JsonV)>::empty());
    }
    None
}

/// What `c` becomes inside a quoted JSON string: quotes, backslashes
/// and the common control characters are escaped, anything else
/// stands as itself.
pub open spec fn esc_char(c: char) -> Seq<char> {
    if c == '"' {
        seq!['\\', '"']
    } else if c == '\\' {
        seq!['\\', '\\']
    } else if c == '\n' {
        seq!['\\', 'n']
    } else if c == '\r' {
        seq!['\\', 'r']
    } else if c == '\t' {
        seq!['\\', 't']
    } else {
        seq![c]
    }
}

/// `s` escaped for use inside a quoted JSON string.
pub open spec fn esc(s: Seq<char>) -> Seq<char>
    decreases s.len(),
{
    if s.len() == 0 {
        Seq::empty()
    } else {
        esc_char(s[0]) + esc(s.drop_first())
    }
}

/// Escape `s` for use inside a quoted JSON string.
pub fn escape_string(s: &str) -> (r: String)
    ensures
        r@ == esc(s@),
{
    let n: usize = s.unicode_len();
    let mut out = String::new();
    let mut i: usize = 0;
    proof {
        assert(s@.skip(0) =~= s@);
        assert(Seq::<char>::empty() + esc(s@) =~= esc(s@));
    }
    while i < n
        invariant
            0 <= i <= n,
            n == s@.len(),
            esc(s@) == out@ + esc(s@.skip(i as int)),
        decreases n - i,
    {
        let c: char = s.get_char(i);
        proof {
            assert(s@.skip(i as int)[0] == s@[i as int]);
            assert(s@.skip(i as int).drop_first() =~= s@.skip(i as int + 1));
            assert(esc(s@.skip(i as int)) == esc_char(c) + esc(s@.skip(i as int + 1)));
        }
        let ghost out0 = out@;
        if c == '"' {
            out.append("\\\"");
            proof {
                reveal_strlit("\\\"");
                assert(out@ =~= out0 + esc_char(c));
            }
        } else if c == '\\' {
            out.append("\\\\");
            proof {
                reveal_strlit("\\\\");
                assert(out@ =~= out0 + esc_char(c));
            }
        } else if c == '\n' {
            out.append("\\n");
            proof {
                reveal_strlit("\\n");
                assert(out@ =~= out0 + esc_char(c));
            }
        } else if c == '\r' {
            out.append("\\r");
            proof {
                reveal_strlit("\\r");
                assert(out@ =~= out0 + esc_char(c));
            }
        } else if c == '\t' {
            out.append("\\t");
            proof {
                reveal_strlit("\\t");
                assert(out@ =~= out0 + esc_char(c));
            }
        } else {
            out.append(s.substring_char(i, i + 1));
            proof {
                assert(s@.subrange(i as int, i as int + 1) =~= seq![c]);
                assert(out@ =~= out0 + esc_char(c));
            }
        }
        proof {
            assert((out0 + esc_char(c)) + esc(s@.skip(i as int + 1)) =~= out0 + (esc_char(c)
                + esc(s@.skip(i as int + 1))));
        }
        i = i + 1;
    }
    proof {
        assert(s@.skip(n as int) =~= Seq::<char>::empty());
        assert(out@ + Seq::<char>::empty() =~= out@);
    }
    out
}

/// The character of the decimal digit `d`.
pub open spec fn digit_char(d: int) -> char {
    ((d + 48) as u8) as char
}

/// The decimal notation of `n`, most significant digit first, with no
/// sign and no leading zero.
pub open spec fn dec_digits(n: int) -> Seq<char>
    decreases n,
{
    if n < 10 {
        seq![digit_char(n)]
    } else {
        dec_digits(n / 10).push(digit_char(n % 10))
    }
}

/// One decimal digit as text.
fn digit_str(d: u64) -> (r: &'static str)
    requires
        d < 10,
    ensures
        r@ == seq![digit_char(d as int)],
{
    if d == 0 {
        proof {
            reveal_strlit("0");
            assert("0"@ =~= seq![digit_char(0)]);
        }
        "0"
    } else if d == 1 {
        proof {
            reveal_strlit("1");
            assert("1"@ =~= seq![digit_char(1)]);
        }
        "1"
    } else if d == 2 {
        proof {
            reveal_strlit("2");
            assert("2"@ =~= seq![digit_char(2)]);
        }
        "2"
    } else if d == 3 {
        proof {
            reveal_strlit("3");
            assert("3"@ =~= seq![digit_char(3)]);
        }
        "3"
    } else if d == 4 {
        proof {
            reveal_strlit("4");
            assert("4"@ =~= seq![digit_char(4)]);
        }
        "4"
    } else if d == 5 {
        proof {
            reveal_strlit("5");
            assert("5"@ =~= seq![digit_char(5)]);
        }
        "5"
    } else if d == 6 {
        proof {
            reveal_strlit("6");
            assert("6"@ =~= seq![digit_char(6)]);
        }
        "6"
    } else if d == 7 {
        proof {
            reveal_strlit("7");
            assert("7"@ =~= seq![digit_char(7)]);
        }
        "7"
    } else if d == 8 {
        proof {
            reveal_strlit("8");
            assert("8"@ =~= seq![digit_char(8)]);
        }
        "8"
    } else {
        proof {
            reveal_strlit("9");
            assert("9"@ =~= seq![digit_char(9)]);
        }
        "9"
    }
}

/// `n` in decimal notation.
pub fn u64_to_string(n: u64) -> (r: String)
    ensures
        r@ == dec_digits(n as int),
    decreases n,
{
    if n < 10 {
        let r = String::from_str(digit_str(n));
        r
    } else {
        let mut r = u64_to_string(n / 10);
        r.append(digit_str(n % 10));
        proof {
            assert(dec_digits((n / 10) as int) + seq![digit_char((n % 10) as int)] =~= dec_digits(
                (n / 10) as int,
            ).push(digit_char((n % 10) as int)));
        }
        r
    }
}

/// JSON whitespace.
pub open spec fn is_ws_char(c: char) -> bool {
    c == ' ' || c == '\n' || c == '\r' || c == '\t'
}

/// Whether `s` holds nothing but whitespace.
pub fn is_blank(s: &str) -> (r: bool)
    ensures
        r == (forall|k: int| 0 <= k < s@.len() ==> is_ws_char(s@[k])),
{
    let n: usize = s.unicode_len();
    let mut i: usize = 0;
    while i < n
        invariant
            0 <= i <= n,
            n == s@.len(),
            forall|k: int| 0 <= k < i ==> is_ws_char(s@[k]),
        decreases n - i,
    {
        let c: char = s.get_char(i);
        if !(c == ' ' || c == '\n' || c == '\r' || c == '\t') {
            return false;
        }
        i = i + 1;
    }
    true
}

/// The first position at or after `i` that does not hold whitespace.
pub open spec fn sp_skip_ws(s: Seq<char>, i: int) -> int
    decreases s.len() - i,
{
    if 0 <= i < s.len() && is_ws_char(s[i]) {
        sp_skip_ws(s, i + 1)
    } else {
        i
    }
}

/// First position at or after `pos` that does not hold JSON whitespace.
fn skip_ws(s: &str, pos: usize) -> (r: usize)
    requires
        pos <= s@.len(),
    ensures
        pos <= r <= s@.len(),
        r == sp_skip_ws(s@, pos as int),
        r < s@.len() ==> !is_ws_char(s@[r as int]),
{
    let n: usize = s.unicode_len();
    let mut i: usize = pos;
    while i < n
        invariant
            pos <= i <= n,
            n == s@.len(),
            sp_skip_ws(s@, pos as int) == sp_skip_ws(s@, i as int),
        decreases n - i,
    {
        let c: char = s.get_char(i);
        if c == ' ' || c == '\n' || c == '\r' || c == '\t' {
            i = i + 1;
        } else {
            return i;
        }
    }
    i
}

/// The value of one hexadecimal digit, in either case.
pub open spec fn sp_hex_val(c: char) -> Option<u32> {
    if 48 <= c as u32 <= 57 {
        Some((c as u32 - 48) as u32)
    } else if 97 <= c as u32 <= 102 {
        Some((c as u32 - 87) as u32)
    } else if 65 <= c as u32 <= 70 {
        Some((c as u32 - 55) as u32)
    } else {
        None
    }
}

/// The value of the four hexadecimal digits at `i`.
pub open spec fn sp_hex4(s: Seq<char>, i: int) -> Option<u32> {
    if i + 4 <= s.len() && sp_hex_val(s[i]) is Some && sp_hex_val(s[i + 1]) is Some && sp_hex_val(
        s[i + 2],
    ) is Some && sp_hex_val(s[i + 3]) is Some {
        Some(
            (sp_hex_val(s[i])->Some_0 * 4096 + sp_hex_val(s[i + 1])->Some_0 * 256 + sp_hex_val(
                s[i + 2],
            )->Some_0 * 16 + sp_hex_val(s[i + 3])->Some_0) as u32,
        )
    } else {
        None
    }
}

/// The character with code point `x`.
pub open spec fn char_of(x: u32) -> char {
    choose|c: char| #[trigger] (c as u32) == x
}

proof fn lemma_char_of(c: char)
    ensures
        char_of(c as u32) == c,
{
    assert((c as u32) == c as u32);
    let w = char_of(c as u32);
    assert((w as u32) == c as u32);
}

/// Relies on char::from_u32: `Some` exactly for the code points that
/// are not surrogates and not above the Unicode maximum, carrying the
/// character with that code point.
#[verifier::external_body]
fn char_from_u32(x: u32) -> (r: Option<char>)
    ensures
        (r is Some) == (x < 0xD800 || (0xE000 <= x && x <= 0x10FFFF)),
        r matches Some(c) ==> c as u32 == x,
{
    char::from_u32(x)
}

/// Relies on String::push: appends exactly one character.
#[verifier::external_body]
fn push_char(s: &mut String, c: char)
    ensures
        final(s)@ == old(s)@.push(c),
{
    s.push(c);
}

/// What stands after `\u` at `i`: the escaped character and the
/// position just past its hexadecimal digits — one code unit outside
/// the surrogate range, or a surrogate pair written as two `\u`
/// escapes.
pub open spec fn sp_unicode_escape(s: Seq<char>, i: int) -> Option<(char, int)> {
    match sp_hex4(s, i) {
        None => None,
        Some(h) => if h < 0xD800 || h >= 0xE000 {
            Some((char_of(h), i + 4))
        } else if h < 0xDC00 {
            if i + 6 <= s.len() && s[i + 4] == '\\' && s[i + 5] == 'u' {
                match sp_hex4(s, i + 6) {
                    Some(l) => if 0xDC00 <= l < 0xE000 {
                        Some(
                            (
                                char_of((0x10000 + (h - 0xD800) * 0x400 + (l - 0xDC00)) as u32),
                                i + 10,
                            ),
                        )
                    } else {
                        None
                    },
                    None => None,
                }
            } else {
                None
            }
        } else {
            None
        },
    }
}

/// What a single-character backslash escape denotes.
pub open spec fn sp_unesc_char(c: char) -> Option<char> {
    if c == '"' {
        Some('"')
    } else if c == '\\' {
        Some('\\')
    } else if c == '/' {
        Some('/')
    } else if c == 'n' {
        Some('\n')
    } else if c == 't' {
        Some('\t')
    } else if c == 'r' {
        Some('\r')
    } else if c == 'b' {
        Some('\u{0008}')
    } else if c == 'f' {
        Some('\u{000C}')
    } else {
        None
    }
}

/// The rest of a quoted string whose opening quote sits just before
/// `i`: the unescaped characters up to the closing quote, and the
/// position just past it.
pub open spec fn sp_string_body(s: Seq<char>, i: int) -> Option<(Seq<char>, int)>
    decreases s.len() - i,
{
    if !(0 <= i < s.len()) {
        None
    } else if s[i] == '"' {
        Some((Seq::empty(), i + 1))
    } else if s[i] == '\\' {
        if i + 1 < s.len() {
            if s[i + 1] == 'u' {
                match sp_unicode_escape(s, i + 2) {
                    Some(u) => match sp_string_body(s, u.1) {
                        Some(t) => Some((seq![u.0] + t.0, t.1)),
                        None => None,
                    },
                    None => None,
                }
            } else {
                match sp_unesc_char(s[i + 1]) {
                    Some(c) => match sp_string_body(s, i + 2) {
                        Some(t) => Some((seq![c] + t.0, t.1)),
                        None => None,
                    },
                    None => None,
                }
            }
        } else {
            None
        }
    } else {
        match sp_string_body(s, i + 1) {
            Some(t) => Some((seq![s[i]] + t.0, t.1)),
            None => None,
        }
    }
}

/// A quoted string starting at `i`: its unescaped contents and the
/// position just past the closing quote.
pub open spec fn sp_string(s: Seq<char>, i: int) -> Option<(Seq<char>, int)> {
    if 0 <= i < s.len() && s[i] == '"' {
        sp_string_body(s, i + 1)
    } else {
        None
    }
}

fn hex_val(c: char) -> (r: Option<u32>)
    ensures
        r == sp_hex_val(c),
{
    let d: u32 = c as u32;
    if d >= 48 && d <= 57 {
        Some(d - 48)
    } else if d >= 97 && d <= 102 {
        Some(d - 87)
    } else if d >= 65 && d <= 70 {
        Some(d - 55)
    } else {
        None
    }
}

fn hex4(s: &str, pos: usize) -> (r: Option<u32>)
    requires
        pos <= s@.len(),
    ensures
        r == sp_hex4(s@, pos as int),
        r matches Some(h) ==> h <= 0xFFFF && pos + 4 <= s@.len(),
{
    let n: usize = s.unicode_len();
    if n - pos < 4 {
        return None;
    }
    let a = hex_val(s.get_char(pos));
    let b = hex_val(s.get_char(pos + 1));
    let c = hex_val(s.get_char(pos + 2));
    let d = hex_val(s.get_char(pos + 3));
    match (a, b, c, d) {
        (Some(av), Some(bv), Some(cv), Some(dv)) => {
            proof {
                assert(av <= 15 && bv <= 15 && cv <= 15 && dv <= 15);
            }
            Some(av * 4096 + bv * 256 + cv * 16 + dv)
        },
        _ => None,
    }
}

fn parse_unicode_escape(s: &str, pos: usize) -> (r: Option<(char, usize)>)
    requires
        pos <= s@.len(),
    ensures
        match r {
            Some(t) => sp_unicode_escape(s@, pos as int) == Some((t.0, t.1 as int)) && pos < t.1
                <= s@.len(),
            None => sp_unicode_escape(s@, pos as int) is None,
        },
{
    let n: usize = s.unicode_len();
    match hex4(s, pos) {
        None => None,
        Some(h) => {
            if h < 0xD800 || h >= 0xE000 {
                match char_from_u32(h) {
                    Some(c) => {
                        proof {
                            lemma_char_of(c);
                        }
                        Some((c, pos + 4))
                    },
                    None => {
                        proof {
                            assert(false);
                        }
                        None
                    },
                }
            } else if h < 0xDC00 {
                if n - pos >= 6 && s.get_char(pos + 4) == '\\' && s.get_char(pos + 5) == 'u' {
                    match hex4(s, pos + 6) {
                        Some(l) => {
                            if l >= 0xDC00 && l < 0xE000 {
                                let cp: u32 = 0x10000 + (h - 0xD800) * 0x400 + (l - 0xDC00);
                                match char_from_u32(cp) {
                                    Some(c) => {
                                        proof {
                                            lemma_char_of(c);
                                        }
                                        Some((c, pos + 10))
                                    },
                                    None => {
                                        proof {
                                            assert(false);
                                        }
                                        None
                                    },
                                }
                            } else {
                                None
                            }
                        },
                        None => None,
                    }
                } else {
                    None
                }
            } else {
                None
            }
        },
    }
}

#[verifier::rlimit(80)]
proof fn lemma_string_body_round_trip(pre: Seq<char>, content: Seq<char>, post: Seq<char>)
    ensures
        ({
            let t = pre + esc(content) + seq!['"'] + post;
            sp_string_body(t, pre.len() as int) == Some(
                (content, (pre.len() + esc(content).len() + 1) as int),
            )
        }),
    decreases content.len(),
{
    let t = pre + esc(content) + seq!['"'] + post;
    if content.len() == 0 {
        assert(esc(content) =~= Seq::<char>::empty());
        assert(t[pre.len() as int] == '"');
        assert(sp_string_body(t, pre.len() as int) == Some(
            (Seq::<char>::empty(), (pre.len() + 1) as int),
        ));
        assert(Seq::<char>::empty() =~= content);
    } else {
        let c = content[0];
        let rest = content.drop_first();
        assert(esc(content) == esc_char(c) + esc(rest));
        lemma_string_body_round_trip(pre + esc_char(c), rest, post);
        let t2 = (pre + esc_char(c)) + esc(rest) + seq!['"'] + post;
        assert(t2 =~= t);
        if c == '"' || c == '\\' || c == '\n' || c == '\r' || c == '\t' {
            assert(esc_char(c).len() == 2);
            assert(t[pre.len() as int] == '\\');
            assert(t[pre.len() + 1 as int] == esc_char(c)[1]);
            assert(sp_unesc_char(esc_char(c)[1]) == Some(c));
            assert(pre.len() + 1 < t.len());
            assert(sp_string_body(t, (pre.len() + 2) as int) == Some(
                (rest, (pre.len() + 2 + esc(rest).len() + 1) as int),
            ));
            assert(seq![c] + rest =~= content);
        } else {
            assert(esc_char(c) == seq![c]);
            assert(t[pre.len() as int] == c);
            assert(sp_string_body(t, (pre.len() + 1) as int) == Some(
                (rest, (pre.len() + 1 + esc(rest).len() + 1) as int),
            ));
            assert(seq![c] + rest =~= content);
        }
    }
}

/// The string grammar's parser inverts its printer: quoting and
/// escaping any characters, then parsing the result (whatever text
/// follows the closing quote), yields exactly those characters and
/// stops just past the quote.
pub proof fn law_string_round_trip(content: Seq<char>, post: Seq<char>)
    ensures
        ({
            let text = seq!['"'] + esc(content) + seq!['"'] + post;
            sp_string(text, 0) == Some((content, (esc(content).len() + 2) as int))
        }),
{
    lemma_string_body_round_trip(seq!['"'], content, post);
    let text = seq!['"'] + esc(content) + seq!['"'] + post;
    assert(text[0] == '"');
}

/// Parse a quoted string starting at `pos`; on success, the unescaped
/// contents and the position just past the closing quote.
fn parse_string(s: &str, pos: usize) -> (r: Option<(String, usize)>)
    requires
        pos <= s@.len(),
    ensures
        match r {
            Some(t) => pos < t.1 <= s@.len() && sp_string(s@, pos as int) == Some(
                (t.0@, t.1 as int),
            ),
            None => sp_string(s@, pos as int) is None,
        },
{
    let n: usize = s.unicode_len();
    if pos >= n {
        return None;
    }
    if s.get_char(pos) != '"' {
        return None;
    }
    let mut out = String::new();
    let mut i: usize = pos + 1;
    let mut chunk: usize = pos + 1;
    proof {
        if let Some(t) = sp_string_body(s@, pos as int + 1) {
            assert(out@ + s@.subrange(pos as int + 1, pos as int + 1) + t.0 =~= t.0);
        }
    }
    while i < n
        invariant
            pos + 1 <= chunk <= i <= n,
            n == s@.len(),
            pos < s@.len() && s@[pos as int] == '"',
            match sp_string_body(s@, i as int) {
                Some(t) => sp_string_body(s@, pos as int + 1) == Some(
                    (out@ + s@.subrange(chunk as int, i as int) + t.0, t.1),
                ),
                None => sp_string_body(s@, pos as int + 1) is None,
            },
        decreases n - i,
    {
        let ghost out0 = out@;
        let ghost chunk0 = chunk as int;
        let c: char = s.get_char(i);
        if c == '"' {
            out.append(s.substring_char(chunk, i));
            proof {
                assert(sp_string_body(s@, i as int) == Some(
                    (Seq::<char>::empty(), i as int + 1),
                ));
                assert(out0 + s@.subrange(chunk0, i as int) + Seq::<char>::empty() =~= out@);
            }
            return Some((out, i + 1));
        } else if c == '\\' {
            out.append(s.substring_char(chunk, i));
            if i + 1 >= n {
                return None;
            }
            let e: char = s.get_char(i + 1);
            let ghost mid = out@;
            if e == 'u' {
                match parse_unicode_escape(s, i + 2) {
                    Some((uc, np)) => {
                        push_char(&mut out, uc);
                        proof {
                            assert(out@ =~= mid + seq![uc]);
                            assert(mid == out0 + s@.subrange(chunk0, i as int));
                            match sp_string_body(s@, np as int) {
                                Some(t2) => {
                                    assert(sp_string_body(s@, i as int) == Some(
                                        (seq![uc] + t2.0, t2.1),
                                    ));
                                    assert(out0 + s@.subrange(chunk0, i as int) + (seq![uc] + t2.0)
                                        =~= out@ + s@.subrange(np as int, np as int) + t2.0);
                                },
                                None => {
                                    assert(sp_string_body(s@, i as int) is None);
                                },
                            }
                        }
                        i = np;
                        chunk = np;
                    },
                    None => {
                        proof {
                            assert(sp_string_body(s@, i as int) is None);
                        }
                        return None;
                    },
                }
            } else {
                if e == '"' {
                out.append("\"");
                proof {
                    reveal_strlit("\"");
                    assert(out@ =~= mid + seq!['"']);
                }
            } else if e == '\\' {
                out.append("\\");
                proof {
                    reveal_strlit("\\");
                    assert(out@ =~= mid + seq!['\\']);
                }
            } else if e == '/' {
                out.append("/");
                proof {
                    reveal_strlit("/");
                    assert(out@ =~= mid + seq!['/']);
                }
            } else if e == 'n' {
                out.append("\n");
                proof {
                    reveal_strlit("\n");
                    assert(out@ =~= mid + seq!['\n']);
                }
            } else if e == 't' {
                out.append("\t");
                proof {
                    reveal_strlit("\t");
                    assert(out@ =~= mid + seq!['\t']);
                }
            } else if e == 'r' {
                out.append("\r");
                proof {
                    reveal_strlit("\r");
                    assert(out@ =~= mid + seq!['\r']);
                }
            } else if e == 'b' {
                out.append("\u{0008}");
                proof {
                    reveal_strlit("\u{0008}");
                    assert(out@ =~= mid + seq!['\u{0008}']);
                }
            } else if e == 'f' {
                out.append("\u{000C}");
                proof {
                    reveal_strlit("\u{000C}");
                    assert(out@ =~= mid + seq!['\u{000C}']);
                }
            } else {
                proof {
                    assert(sp_unesc_char(s@[i as int + 1]) is None);
                    assert(sp_string_body(s@, i as int) is None);
                }
                return None;
            }
            proof {
                let u = sp_unesc_char(s@[i as int + 1])->Some_0;
                assert(out@ == mid + seq![u]);
                assert(mid == out0 + s@.subrange(chunk0, i as int));
                match sp_string_body(s@, i as int + 2) {
                    Some(t2) => {
                        assert(sp_string_body(s@, i as int) == Some((seq![u] + t2.0, t2.1)));
                        assert(out0 + s@.subrange(chunk0, i as int) + (seq![u] + t2.0) =~= out@
                            + s@.subrange(i as int + 2, i as int + 2) + t2.0);
                    },
                    None => {
                        assert(sp_string_body(s@, i as int) is None);
                    },
                }
            }
            i = i + 2;
            chunk = i;
            }
        } else {
            proof {
                match sp_string_body(s@, i as int + 1) {
                    Some(t) => {
                        assert(sp_string_body(s@, i as int) == Some((seq![c] + t.0, t.1)));
                        assert(s@.subrange(chunk0, i as int + 1) =~= s@.subrange(chunk0, i as int)
                            + seq![c]);
                        assert(out0 + s@.subrange(chunk0, i as int) + (seq![c] + t.0) =~= out0
                            + s@.subrange(chunk0, i as int + 1) + t.0);
                    },
                    None => {
                        assert(sp_string_body(s@, i as int) is None);
                    },
                }
            }
            i = i + 1;
        }
    }
    None
}

/// A decimal digit.
pub open spec fn is_digit(c: char) -> bool {
    48 <= c as u32 <= 57
}

/// The first position at or after `i` that does not hold a digit.
pub open spec fn sp_digits_end(s: Seq<char>, i: int) -> int
    decreases s.len() - i,
{
    if 0 <= i < s.len() && is_digit(s[i]) {
        sp_digits_end(s, i + 1)
    } else {
        i
    }
}

/// The value of the decimal digits `s[i..e)`.
pub open spec fn sp_num_val(s: Seq<char>, i: int, e: int) -> int
    decreases e - i,
{
    if i >= e {
        0
    } else {
        sp_num_val(s, i, e - 1) * 10 + (s[e - 1] as u32 - 48)
    }
}

proof fn lemma_digits_end_digits(s: Seq<char>, i: int)
    requires
        0 <= i <= s.len(),
    ensures
        i <= sp_digits_end(s, i) <= s.len(),
        forall|k: int| i <= k < sp_digits_end(s, i) ==> is_digit(s[k]),
    decreases s.len() - i,
{
    if 0 <= i < s.len() && is_digit(s[i]) {
        lemma_digits_end_digits(s, i + 1);
    }
}

proof fn lemma_num_val_nonneg(s: Seq<char>, i: int, e: int)
    requires
        forall|k: int| i <= k < e ==> is_digit(s[k]),
    ensures
        sp_num_val(s, i, e) >= 0,
    decreases e - i,
{
    if i < e {
        lemma_num_val_nonneg(s, i, e - 1);
    }
}

proof fn lemma_num_val_grows(s: Seq<char>, i: int, e1: int, e2: int)
    requires
        i <= e1 <= e2,
        forall|k: int| i <= k < e2 ==> is_digit(s[k]),
    ensures
        sp_num_val(s, i, e1) <= sp_num_val(s, i, e2),
    decreases e2 - e1,
{
    if e1 < e2 {
        lemma_num_val_grows(s, i, e1, e2 - 1);
        lemma_num_val_nonneg(s, i, e2 - 1);
    }
}

proof fn lemma_num_val_congr(s1: Seq<char>, s2: Seq<char>, i: int, e: int)
    requires
        forall|k: int| i <= k < e ==> s1[k] == s2[k],
    ensures
        sp_num_val(s1, i, e) == sp_num_val(s2, i, e),
    decreases e - i,
{
    if i < e {
        lemma_num_val_congr(s1, s2, i, e - 1);
    }
}

proof fn lemma_dec_digits_val(m: int)
    requires
        m >= 0,
    ensures
        dec_digits(m).len() > 0,
        forall|k: int| 0 <= k < dec_digits(m).len() ==> is_digit(dec_digits(m)[k]),
        sp_num_val(dec_digits(m), 0, dec_digits(m).len() as int) == m,
    decreases m,
{
    let t = dec_digits(m);
    if m < 10 {
        assert(t =~= seq![digit_char(m)]);
        assert(t[0] as u32 == m + 48);
        assert(sp_num_val(t, 0, 1) == sp_num_val(t, 0, 0) * 10 + (t[0] as u32 - 48));
    } else {
        let p = dec_digits(m / 10);
        lemma_dec_digits_val(m / 10);
        assert(t == p.push(digit_char(m % 10)));
        assert(t.len() == p.len() + 1);
        assert(forall|k: int| 0 <= k < p.len() ==> t[k] == p[k]);
        assert(t[p.len() as int] == digit_char(m % 10));
        assert(t[p.len() as int] as u32 == m % 10 + 48);
        lemma_num_val_congr(t, p, 0, p.len() as int);
        assert(sp_num_val(t, 0, t.len() as int) == sp_num_val(t, 0, p.len() as int) * 10 + (t[
            p.len() as int
        ] as u32 - 48));
    }
}

/// The number grammar's parser inverts its printer: the decimal
/// notation of `n` is all digits and reads back as the value `n`.
pub proof fn law_number_round_trip(n: u64)
    ensures
        dec_digits(n as int).len() > 0,
        forall|k: int| 0 <= k < dec_digits(n as int).len() ==> is_digit(dec_digits(n as int)[k]),
        sp_num_val(dec_digits(n as int), 0, dec_digits(n as int).len() as int) == n,
{
    lemma_dec_digits_val(n as int);
}

/// Parse a decimal unsigned integer starting at `pos`: its value is
/// that of the maximal digit run there, when there is one and it
/// fits.
fn parse_u64(s: &str, pos: usize) -> (r: Option<(u64, usize)>)
    requires
        pos <= s@.len(),
    ensures
        ({
            let e = sp_digits_end(s@, pos as int);
            match r {
                Some(t) => pos < t.1 <= s@.len() && t.1 == e && t.0 == sp_num_val(
                    s@,
                    pos as int,
                    e,
                ),
                None => e == pos || sp_num_val(s@, pos as int, e) > u64::MAX,
            }
        }),
{
    let n: usize = s.unicode_len();
    let mut i: usize = pos;
    let mut val: u64 = 0;
    while i < n
        invariant
            pos <= i <= n,
            n == s@.len(),
            sp_digits_end(s@, pos as int) == sp_digits_end(s@, i as int),
            forall|k: int| pos <= k < i ==> is_digit(s@[k]),
            val == sp_num_val(s@, pos as int, i as int),
        decreases n - i,
    {
        let c: char = s.get_char(i);
        let d: u32 = c as u32;
        if d >= 48 && d <= 57 {
            let dv: u64 = (d - 48) as u64;
            if val > (u64::MAX - dv) / 10 {
                proof {
                    let e = sp_digits_end(s@, pos as int);
                    lemma_digits_end_digits(s@, i as int);
                    lemma_digits_end_digits(s@, i as int + 1);
                    assert(sp_digits_end(s@, i as int) == sp_digits_end(s@, i as int + 1));
                    assert(sp_num_val(s@, pos as int, i as int + 1) == val * 10 + dv);
                    lemma_num_val_grows(s@, pos as int, i as int + 1, e);
                }
                return None;
            }
            val = val * 10 + dv;
            i = i + 1;
        } else {
            if i == pos {
                return None;
            }
            return Some((val, i));
        }
    }
    if i == pos {
        return None;
    }
    Some((val, i))
}

/// The end of an optional fraction part at `i`: just `i` when none
/// starts there, the end of its digits when one does, and a mismatch
/// when a decimal point has no digits.
pub open spec fn sp_frac_end(s: Seq<char>, i: int) -> Option<int> {
    if i < s.len() && s[i] == '.' {
        let e = sp_digits_end(s, i + 1);
        if e > i + 1 {
            Some(e)
        } else {
            None
        }
    } else {
        Some(i)
    }
}

/// The end of an optional exponent part at `i`, in the same way.
pub open spec fn sp_exp_end(s: Seq<char>, i: int) -> Option<int> {
    if i < s.len() && (s[i] == 'e' || s[i] == 'E') {
        let j = if i + 1 < s.len() && (s[i + 1] == '+' || s[i + 1] == '-') {
            i + 2
        } else {
            i + 1
        };
        let e = sp_digits_end(s, j);
        if e > j {
            Some(e)
        } else {
            None
        }
    } else {
        Some(i)
    }
}

/// The number token at `i`: a plain unsigned integer that fits 64
/// bits becomes a machine integer; any other well-formed number
/// (negative, fractional, with an exponent, or out of range) is kept
/// as its text.
pub open spec fn sp_number(s: Seq<char>, i: int) -> Option<(JsonV, int)> {
    let neg = i < s.len() && s[i] == '-';
    let dstart = if neg {
        i + 1
    } else {
        i
    };
    let e1 = sp_digits_end(s, dstart);
    if e1 == dstart {
        None
    } else {
        match sp_frac_end(s, e1) {
            None => None,
            Some(f) => match sp_exp_end(s, f) {
                None => None,
                Some(x) => if !neg && f == e1 && x == e1 {
                    if sp_num_val(s, i, e1) <= u64::MAX {
                        Some((JsonV::UInt(sp_num_val(s, i, e1) as u64), e1))
                    } else {
                        Some((JsonV::NumText(s.subrange(i, e1)), e1))
                    }
                } else {
                    Some((JsonV::NumText(s.subrange(i, x)), x))
                },
            },
        }
    }
}

/// First position at or after `pos` that does not hold a digit.
fn digits_end(s: &str, pos: usize) -> (r: usize)
    requires
        pos <= s@.len(),
    ensures
        pos <= r <= s@.len(),
        r == sp_digits_end(s@, pos as int),
{
    let n: usize = s.unicode_len();
    let mut i: usize = pos;
    while i < n
        invariant
            pos <= i <= n,
            n == s@.len(),
            sp_digits_end(s@, pos as int) == sp_digits_end(s@, i as int),
        decreases n - i,
    {
        let d: u32 = s.get_char(i) as u32;
        if d >= 48 && d <= 57 {
            i = i + 1;
        } else {
            return i;
        }
    }
    i
}

/// Parse the number token at `pos`.
fn parse_number(s: &str, pos: usize) -> (r: Option<(Json, usize)>)
    requires
        pos <= s@.len(),
    ensures
        match r {
            Some(t) => pos < t.1 <= s@.len() && sp_number(s@, pos as int) == Some(
                (t.0.deep(), t.1 as int),
            ),
            None => sp_number(s@, pos as int) is None,
        },
{
    let n: usize = s.unicode_len();
    let neg = pos < n && s.get_char(pos) == '-';
    let dstart: usize = if neg {
        pos + 1
    } else {
        pos
    };
    let e1: usize = digits_end(s, dstart);
    if e1 == dstart {
        return None;
    }
    let f: usize = if e1 < n && s.get_char(e1) == '.' {
        let e2: usize = digits_end(s, e1 + 1);
        if e2 == e1 + 1 {
            return None;
        }
        e2
    } else {
        e1
    };
    let x: usize = if f < n && (s.get_char(f) == 'e' || s.get_char(f) == 'E') {
        let j: usize = if f + 1 < n && (s.get_char(f + 1) == '+' || s.get_char(f + 1) == '-') {
            f + 2
        } else {
            f + 1
        };
        let e3: usize = digits_end(s, j);
        if e3 == j {
            return None;
        }
        e3
    } else {
        f
    };
    if !neg && f == e1 && x == e1 {
        match parse_u64(s, pos) {
            Some((v, e)) => Some((Json::UInt(v), e)),
            None => Some((Json::NumText(s.substring_char(pos, e1).to_owned()), e1)),
        }
    } else {
        Some((Json::NumText(s.substring_char(pos, x).to_owned()), x))
    }
}

/// Whether `w` occurs verbatim at `i`.
pub open spec fn sp_word_at(s: Seq<char>, i: int, w: Seq<char>) -> bool {
    i + w.len() <= s.len() && s.subrange(i, i + w.len()) == w
}

/// Check that `w` occurs verbatim at `pos`.
fn expect_word(s: &str, pos: usize, w: &str) -> (r: Option<usize>)
    requires
        pos <= s@.len(),
    ensures
        match r {
            Some(p) => p == pos + w@.len() && sp_word_at(s@, pos as int, w@),
            None => !sp_word_at(s@, pos as int, w@),
        },
{
    let n: usize = s.unicode_len();
    let wn: usize = w.unicode_len();
    if wn > n - pos {
        return None;
    }
    let mut j: usize = 0;
    while j < wn
        invariant
            0 <= j <= wn,
            n == s@.len(),
            wn == w@.len(),
            pos + wn <= n,
            forall|k: int| 0 <= k < j ==> s@[pos + k] == w@[k],
        decreases wn - j,
    {
        if s.get_char(pos + j) != w.get_char(j) {
            proof {
                assert(s@.subrange(pos as int, pos + wn) != w@) by {
                    assert(s@.subrange(pos as int, pos + wn)[j as int] == s@[pos + j]);
                }
            }
            return None;
        }
        j = j + 1;
    }
    proof {
        assert(s@.subrange(pos as int, pos + wn) =~= w@);
    }
    Some(pos + wn)
}

proof fn lemma_skip_ws_bounds(s: Seq<char>, p: int)
    requires
        0 <= p <= s.len(),
    ensures
        p <= sp_skip_ws(s, p) <= s.len(),
    decreases s.len() - p,
{
    if 0 <= p < s.len() && is_ws_char(s[p]) {
        lemma_skip_ws_bounds(s, p + 1);
    }
}

proof fn lemma_skip_ws_bounds_all(s: Seq<char>)
    ensures
        forall|p: int| 0 <= p <= s.len() ==> p <= #[trigger] sp_skip_ws(s, p) <= s.len(),
{
    assert forall|p: int| 0 <= p <= s.len() implies p <= #[trigger] sp_skip_ws(s, p)
        <= s.len() by {
        lemma_skip_ws_bounds(s, p);
    }
}

proof fn lemma_string_body_bounds(s: Seq<char>, i: int)
    requires
        0 <= i,
    ensures
        sp_string_body(s, i) matches Some(t) ==> i < t.1 <= s.len(),
    decreases s.len() - i,
{
    if 0 <= i < s.len() {
        if s[i] == '"' {
        } else if s[i] == '\\' {
            if i + 1 < s.len() {
                if s[i + 1] == 'u' {
                    if let Some(u) = sp_unicode_escape(s, i + 2) {
                        assert(i < u.1 <= s.len());
                        lemma_string_body_bounds(s, u.1);
                    }
                } else {
                    lemma_string_body_bounds(s, i + 2);
                }
            }
        } else {
            lemma_string_body_bounds(s, i + 1);
        }
    }
}

proof fn lemma_string_bounds_all(s: Seq<char>)
    ensures
        forall|i: int|
            0 <= i ==> (#[trigger] sp_string(s, i) matches Some(t) ==> i + 2 <= t.1 <= s.len()),
{
    assert forall|i: int|
        0 <= i implies (#[trigger] sp_string(s, i) matches Some(t) ==> i + 2 <= t.1
        <= s.len()) by {
        if 0 <= i < s.len() && s[i] == '"' {
            lemma_string_body_bounds(s, i + 1);
        }
    }
}

/// One JSON value starting at `pos`, leading whitespace allowed: its
/// mirror and the position just past it.
pub open spec fn sp_value(s: Seq<char>, pos: int) -> Option<(JsonV, int)>
    decreases s.len() - pos, 0int,
        when 0 <= pos && pos <= s.len()
        via sp_value_dec
{
    let i = sp_skip_ws(s, pos);
    if i >= s.len() {
        None
    } else {
        let c = s[i];
        if c == '{' {
            let j0 = sp_skip_ws(s, i + 1);
            if j0 < s.len() && s[j0] == '}' {
                Some((JsonV::Obj(Seq::empty()), j0 + 1))
            } else {
                match sp_members(s, j0) {
                    Some(t) => Some((JsonV::Obj(t.0), t.1)),
                    None => None,
                }
            }
        } else if c == '[' {
            let j0 = sp_skip_ws(s, i + 1);
            if j0 < s.len() && s[j0] == ']' {
                Some((JsonV::Arr(Seq::empty()), j0 + 1))
            } else {
                match sp_items(s, j0) {
                    Some(t) => Some((JsonV::Arr(t.0), t.1)),
                    None => None,
                }
            }
        } else if c == '"' {
            match sp_string(s, i) {
                Some(t) => Some((JsonV::Str(t.0), t.1)),
                None => None,
            }
        } else if c == 't' {
            if sp_word_at(s, i, "true"@) {
                Some((JsonV::Bool(true), (i + "true"@.len()) as int))
            } else {
                None
            }
        } else if c == 'f' {
            if sp_word_at(s, i, "false"@) {
                Some((JsonV::Bool(false), (i + "false"@.len()) as int))
            } else {
                None
            }
        } else if c == 'n' {
            if sp_word_at(s, i, "null"@) {
                Some((JsonV::Null, (i + "null"@.len()) as int))
            } else {
                None
            }
        } else {
            sp_number(s, i)
        }
    }
}

/// The members of an object from the first key at `pos` up to the
/// closing brace: their mirrors and the position just past it.
pub open spec fn sp_members(s: Seq<char>, pos: int) -> Option<(Seq<(Seq<char>, JsonV)>, int)>
    decreases s.len() - pos, 1int,
        when 0 <= pos && pos <= s.len()
        via sp_members_dec
{
    match sp_string(s, pos) {
        None => None,
        Some(kt) => {
            let j3 = sp_skip_ws(s, kt.1);
            if !(j3 < s.len() && s[j3] == ':') {
                None
            } else {
                match sp_value(s, j3 + 1) {
                    None => None,
                    Some(vt) => {
                        let v_end = if pos < vt.1 && vt.1 <= s.len() {
                            vt.1
                        } else {
                            pos + 1
                        };
                        let j5 = sp_skip_ws(s, v_end);
                        if j5 >= s.len() {
                            None
                        } else if s[j5] == '}' {
                            Some((seq![(kt.0, vt.0)], j5 + 1))
                        } else if s[j5] == ',' {
                            let jn = sp_skip_ws(s, j5 + 1);
                            match sp_members(s, jn) {
                                Some(mt) => Some((seq![(kt.0, vt.0)] + mt.0, mt.1)),
                                None => None,
                            }
                        } else {
                            None
                        }
                    },
                }
            }
        },
    }
}

/// The items of an array from the first value at `pos` up to the
/// closing bracket: their mirrors and the position just past it.
pub open spec fn sp_items(s: Seq<char>, pos: int) -> Option<(Seq<JsonV>, int)>
    decreases s.len() - pos, 1int,
        when 0 <= pos && pos <= s.len()
        via sp_items_dec
{
    match sp_value(s, pos) {
        None => None,
        Some(vt) => {
            let v_end = if pos < vt.1 && vt.1 <= s.len() {
                vt.1
            } else {
                pos + 1
            };
            let j5 = sp_skip_ws(s, v_end);
            if j5 >= s.len() {
                None
            } else if s[j5] == ']' {
                Some((seq![vt.0], j5 + 1))
            } else if s[j5] == ',' {
                match sp_items(s, j5 + 1) {
                    Some(t) => Some((seq![vt.0] + t.0, t.1)),
                    None => None,
                }
            } else {
                None
            }
        },
    }
}

#[via_fn]
proof fn sp_value_dec(s: Seq<char>, pos: int) {
    lemma_skip_ws_bounds_all(s);
}

#[via_fn]
proof fn sp_members_dec(s: Seq<char>, pos: int) {
    lemma_skip_ws_bounds_all(s);
    lemma_string_bounds_all(s);
}

#[via_fn]
proof fn sp_items_dec(s: Seq<char>, pos: int) {
    lemma_skip_ws_bounds_all(s);
}

/// A whole response body: one JSON value with nothing but whitespace
/// around it.
pub open spec fn sp_doc(t: Seq<char>) -> Option<JsonV> {
    match sp_value(t, 0) {
        Some(v) => if sp_skip_ws(t, v.1) == t.len() {
            Some(v.0)
        } else {
            None
        },
        None => None,
    }
}

/// Parse one JSON value starting at `pos` (leading whitespace
/// allowed); on success, the value and the position just past it,
/// exactly as the grammar above reads the text.
pub fn parse_value(s: &str, pos: usize) -> (r: Option<(Json, usize)>)
    requires
        pos <= s@.len(),
    ensures
        r matches Some(t) ==> pos < t.1 <= s@.len(),
        match r {
            Some(t) => sp_value(s@, pos as int) == Some((t.0.deep(), t.1 as int)),
            None => sp_value(s@, pos as int) is None,
        },
    decreases s@.len() - pos,
{
    let n: usize = s.unicode_len();
    let i: usize = skip_ws(s, pos);
    if i >= n {
        proof {
            assert(sp_value(s@, pos as int) is None);
        }
        return None;
    }
    let c: char = s.get_char(i);
    if c == '{' {
        let mut fields: Vec<(String, Json)> = Vec::new();
        let mut j: usize = skip_ws(s, i + 1);
        if j < n && s.get_char(j) == '}' {
            proof {
                assert(fields_deep(fields@) =~= Seq::<(Seq<char>, JsonV)>::empty());
                assert(sp_value(s@, pos as int) == Some((JsonV::Obj(Seq::empty()), j + 1 as int)));
            }
            return Some((Json::Obj(fields), j + 1));
        }
        let ghost j0 = j as int;
        proof {
            if let Some(t) = sp_members(s@, j0) {
                assert(fields_deep(fields@) + t.0 =~= t.0);
            }
        }
        while j < n
            invariant
                pos < j <= n,
                n == s@.len(),
                i as int == sp_skip_ws(s@, pos as int),
                i < n && s@[i as int] == '{',
                j0 == sp_skip_ws(s@, i as int + 1),
                !(j0 < n && s@[j0] == '}'),
                pos < j0 <= n,
                match sp_members(s@, j as int) {
                    Some(t) => sp_members(s@, j0) == Some((fields_deep(fields@) + t.0, t.1)),
                    None => sp_members(s@, j0) is None,
                },
            decreases n - j,
        {
            let ks = parse_string(s, j);
            match ks {
                None => {
                    proof {
                        assert(sp_members(s@, j as int) is None);
                        assert(sp_value(s@, pos as int) is None);
                    }
                    return None;
                },
                Some((key, j2)) => {
                    let j3: usize = skip_ws(s, j2);
                    if j3 >= n {
                        proof {
                            assert(sp_members(s@, j as int) is None);
                            assert(sp_value(s@, pos as int) is None);
                        }
                        return None;
                    }
                    if s.get_char(j3) != ':' {
                        proof {
                            assert(sp_members(s@, j as int) is None);
                            assert(sp_value(s@, pos as int) is None);
                        }
                        return None;
                    }
                    let vs = parse_value(s, j3 + 1);
                    match vs {
                        None => {
                            proof {
                                assert(sp_members(s@, j as int) is None);
                                assert(sp_value(s@, pos as int) is None);
                            }
                            return None;
                        },
                        Some((v, j4)) => {
                            let ghost m = (key@, v.deep());
                            let ghost fields0 = fields@;
                            let ghost jprev = j as int;
                            fields.push((key, v));
                            proof {
                                assert(fields_deep(fields@) =~= fields_deep(fields0).push(m));
                                assert(jprev < j4 <= n);
                            }
                            let j5: usize = skip_ws(s, j4);
                            if j5 >= n {
                                proof {
                                    assert(sp_members(s@, jprev) is None);
                                    assert(sp_value(s@, pos as int) is None);
                                }
                                return None;
                            }
                            let d: char = s.get_char(j5);
                            if d == ',' {
                                j = skip_ws(s, j5 + 1);
                                proof {
                                    assert(sp_members(s@, jprev) == (match sp_members(
                                        s@,
                                        j as int,
                                    ) {
                                        Some(mt) => Some((seq![m] + mt.0, mt.1)),
                                        None => None::<(Seq<(Seq<char>, JsonV)>, int)>,
                                    }));
                                    if let Some(mt) = sp_members(s@, j as int) {
                                        assert(fields_deep(fields0) + (seq![m] + mt.0)
                                            =~= fields_deep(fields@) + mt.0);
                                    }
                                }
                            } else if d == '}' {
                                proof {
                                    assert(sp_members(s@, jprev) == Some(
                                        (seq![m], j5 + 1 as int),
                                    ));
                                    assert(fields_deep(fields0) + seq![m] =~= fields_deep(
                                        fields@,
                                    ));
                                    assert(sp_value(s@, pos as int) == Some(
                                        (JsonV::Obj(fields_deep(fields@)), j5 + 1 as int),
                                    ));
                                }
                                return Some((Json::Obj(fields), j5 + 1));
                            } else {
                                proof {
                                    assert(sp_members(s@, jprev) is None);
                                    assert(sp_value(s@, pos as int) is None);
                                }
                                return None;
                            }
                        },
                    }
                },
            }
        }
        proof {
            assert(sp_members(s@, n as int) is None);
            assert(sp_value(s@, pos as int) is None);
        }
        None
    } else if c == '[' {
        let mut items: Vec<Json> = Vec::new();
        let mut j: usize = skip_ws(s, i + 1);
        if j < n && s.get_char(j) == ']' {
            proof {
                assert(items_deep(items@) =~= Seq::<JsonV>::empty());
                assert(sp_value(s@, pos as int) == Some((JsonV::Arr(Seq::empty()), j + 1 as int)));
            }
            return Some((Json::Arr(items), j + 1));
        }
        let ghost j0 = j as int;
        proof {
            if let Some(t) = sp_items(s@, j0) {
                assert(items_deep(items@) + t.0 =~= t.0);
            }
        }
        while j < n
            invariant
                pos < j <= n,
                n == s@.len(),
                i as int == sp_skip_ws(s@, pos as int),
                i < n && s@[i as int] == '[',
                j0 == sp_skip_ws(s@, i as int + 1),
                !(j0 < n && s@[j0] == ']'),
                pos < j0 <= n,
                match sp_items(s@, j as int) {
                    Some(t) => sp_items(s@, j0) == Some((items_deep(items@) + t.0, t.1)),
                    None => sp_items(s@, j0) is None,
                },
            decreases n - j,
        {
            let vs = parse_value(s, j);
            match vs {
                None => {
                    proof {
                        assert(sp_items(s@, j as int) is None);
                        assert(sp_value(s@, pos as int) is None);
                    }
                    return None;
                },
                Some((v, j4)) => {
                    let ghost m = v.deep();
                    let ghost items0 = items@;
                    let ghost jprev = j as int;
                    items.push(v);
                    proof {
                        assert(items_deep(items@) =~= items_deep(items0).push(m));
                        assert(jprev < j4 <= n);
                    }
                    let j5: usize = skip_ws(s, j4);
                    if j5 >= n {
                        proof {
                            assert(sp_items(s@, jprev) is None);
                            assert(sp_value(s@, pos as int) is None);
                        }
                        return None;
                    }
                    let d: char = s.get_char(j5);
                    if d == ',' {
                        j = j5 + 1;
                        proof {
                            assert(sp_items(s@, jprev) == (match sp_items(s@, j as int) {
                                Some(t) => Some((seq![m] + t.0, t.1)),
                                None => None::<(Seq<JsonV>, int)>,
                            }));
                            if let Some(t) = sp_items(s@, j as int) {
                                assert(items_deep(items0) + (seq![m] + t.0) =~= items_deep(items@)
                                    + t.0);
                            }
                        }
                    } else if d == ']' {
                        proof {
                            assert(sp_items(s@, jprev) == Some((seq![m], j5 + 1 as int)));
                            assert(items_deep(items0) + seq![m] =~= items_deep(items@));
                            assert(sp_value(s@, pos as int) == Some(
                                (JsonV::Arr(items_deep(items@)), j5 + 1 as int),
                            ));
                        }
                        return Some((Json::Arr(items), j5 + 1));
                    } else {
                        proof {
                            assert(sp_items(s@, jprev) is None);
                            assert(sp_value(s@, pos as int) is None);
                        }
                        return None;
                    }
                },
            }
        }
        proof {
            assert(sp_items(s@, n as int) is None);
            assert(sp_value(s@, pos as int) is None);
        }
        None
    } else if c == '"' {
        match parse_string(s, i) {
            Some((v, p)) => {
                proof {
                    assert(sp_value(s@, pos as int) == Some((JsonV::Str(v@), p as int)));
                }
                Some((Json::Str(v), p))
            },
            None => {
                proof {
                    assert(sp_value(s@, pos as int) is None);
                }
                None
            },
        }
    } else if c == 't' {
        match expect_word(s, i, "true") {
            Some(p) => {
                proof {
                    reveal_strlit("true");
                    assert(sp_value(s@, pos as int) == Some((JsonV::Bool(true), p as int)));
                }
                Some((Json::Bool(true), p))
            },
            None => {
                proof {
                    assert(sp_value(s@, pos as int) is None);
                }
                None
            },
        }
    } else if c == 'f' {
        match expect_word(s, i, "false") {
            Some(p) => {
                proof {
                    reveal_strlit("false");
                    assert(sp_value(s@, pos as int) == Some((JsonV::Bool(false), p as int)));
                }
                Some((Json::Bool(false), p))
            },
            None => {
                proof {
                    assert(sp_value(s@, pos as int) is None);
                }
                None
            },
        }
    } else if c == 'n' {
        match expect_word(s, i, "null") {
            Some(p) => {
                proof {
                    reveal_strlit("null");
                    assert(sp_value(s@, pos as int) == Some((JsonV::Null, p as int)));
                }
                Some((Json::Null, p))
            },
            None => {
                proof {
                    assert(sp_value(s@, pos as int) is None);
                }
                None
            },
        }
    } else {
        match parse_number(s, i) {
            Some((v, p)) => {
                proof {
                    assert(sp_value(s@, pos as int) == Some((v.deep(), p as int)));
                }
                Some((v, p))
            },
            None => {
                proof {
                    assert(sp_value(s@, pos as int) is None);
                }
                None
            },
        }
    }
}

/// Parse a whole response body: one JSON value with nothing but
/// whitespace around it, read exactly as [`sp_doc`] reads it.
pub fn parse_json(s: &str) -> (r: Option<Json>)
    ensures
        match r {
            Some(v) => sp_doc(s@) == Some(v.deep()),
            None => sp_doc(s@) is None,
        },
{
    let n: usize = s.unicode_len();
    match parse_value(s, 0) {
        None => None,
        Some((v, p)) => {
            let q: usize = skip_ws(s, p);
            if q == n {
                Some(v)
            } else {
                None
            }
        },
    }
}

} // verus!

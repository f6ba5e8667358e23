//! The container's text form: a JSON object. `to_json` writes the fields in
//! a fixed order without insignificant whitespace, escaping strings as JSON
//! requires. The reader takes any JSON whitespace, the members in any order,
//! a `public_key` that is absent or null, and members it does not know.

use vstd::prelude::*;
use vstd::string::*;

use crate::container::{ContainerView, EncryptedKeyContainer};
use crate::secure_buffer::{decimal, digit_char, push_decimal};

verus! {

// ---- Writing -------------------------------------------------------------

/// A character that stands in a JSON string as itself.
pub open spec fn is_plain_char(c: char) -> bool {
    c != '"' && c != '\\' && (c as u32) >= 0x20
}

pub open spec fn is_plain(s: Seq<char>) -> bool {
    forall|i: int| 0 <= i < s.len() ==> is_plain_char(#[trigger] s[i])
}

/// Every text field of `c` stands in JSON unescaped.
pub open spec fn is_plain_container(c: ContainerView) -> bool {
    &&& is_plain(c.salt)
    &&& is_plain(c.nonce)
    &&& is_plain(c.ciphertext)
    &&& c.public_key matches Some(p) ==> is_plain(p)
}

pub open spec fn hex_char(d: nat) -> char {
    if d < 10 { digit_char(d) }
    else if d == 10 { 'a' }
    else if d == 11 { 'b' }
    else if d == 12 { 'c' }
    else if d == 13 { 'd' }
    else if d == 14 { 'e' }
    else { 'f' }
}

/// How one character stands inside a JSON string.
pub open spec fn escape_one(c: char) -> Seq<char> {
    if c == '"' { seq!['\\', '"'] }
    else if c == '\\' { seq!['\\', '\\'] }
    else if c == '\x08' { seq!['\\', 'b'] }
    else if c == '\x0c' { seq!['\\', 'f'] }
    else if c == '\n' { seq!['\\', 'n'] }
    else if c == '\r' { seq!['\\', 'r'] }
    else if c == '\t' { seq!['\\', 't'] }
    else if (c as u32) < 0x20 {
        seq!['\\', 'u', '0', '0', hex_char((c as u32 / 16) as nat), hex_char((c as u32 % 16) as nat)]
    } else { seq![c] }
}

/// `s` as it stands inside a JSON string.
pub open spec fn json_escaped(s: Seq<char>) -> Seq<char>
    decreases s.len(),
{
    if s.len() == 0 {
        Seq::empty()
    } else {
        json_escaped(s.drop_last()) + escape_one(s.last())
    }
}

/// The text of container `c`.
pub open spec fn container_text(c: ContainerView) -> Seq<char> {
    "{\"version\":"@ + decimal(c.version as nat) + ",\"salt\":\""@ + json_escaped(c.salt) + "\",\"nonce\":\""@
        + json_escaped(c.nonce) + "\",\"ciphertext\":\""@ + json_escaped(c.ciphertext) + match c.public_key {
        Some(p) => "\",\"public_key\":\""@ + json_escaped(p) + "\"}"@,
        None => "\"}"@,
    }
}

// ---- Reading -------------------------------------------------------------

pub open spec fn is_ws(c: char) -> bool {
    c == ' ' || c == '\t' || c == '\n' || c == '\r'
}

/// The first position at or after `i` that is not JSON whitespace.
pub open spec fn skip_ws(t: Seq<char>, i: int) -> int
    decreases t.len() - i,
{
    if 0 <= i < t.len() && is_ws(t[i]) {
        skip_ws(t, i + 1)
    } else {
        i
    }
}

/// `lit` stands in `t` at `pos`.
pub open spec fn stands_at(t: Seq<char>, pos: int, lit: Seq<char>) -> bool {
    0 <= pos && pos + lit.len() <= t.len() && t.subrange(pos, pos + lit.len()) == lit
}

pub open spec fn hex_value(c: char) -> Option<nat> {
    if is_digit(c) { Some(digit_value(c)) }
    else if c == 'a' || c == 'A' { Some(10) }
    else if c == 'b' || c == 'B' { Some(11) }
    else if c == 'c' || c == 'C' { Some(12) }
    else if c == 'd' || c == 'D' { Some(13) }
    else if c == 'e' || c == 'E' { Some(14) }
    else if c == 'f' || c == 'F' { Some(15) }
    else { None }
}

/// The four hex digits at `i`, as a number.
pub open spec fn hex4(t: Seq<char>, i: int) -> Option<nat> {
    if 0 <= i && i + 4 <= t.len() {
        match (hex_value(t[i]), hex_value(t[i + 1]), hex_value(t[i + 2]), hex_value(t[i + 3])) {
            (Some(a), Some(b), Some(c), Some(d)) => Some(a * 4096 + b * 256 + c * 16 + d),
            _ => None,
        }
    } else {
        None
    }
}

/// The scalar value of `c`.
pub open spec fn code_of(c: char) -> u32 {
    c as u32
}

/// The character with Unicode scalar value `code`, if there is one.
pub open spec fn scalar_char(code: nat) -> Option<char> {
    if code < 0xD800 || (0xE000 <= code && code <= 0x10FFFF) {
        Some(choose|c: char| #[trigger] code_of(c) as nat == code)
    } else {
        None
    }
}

/// The character of a `\u` escape at `i` (a surrogate pair takes two), and
/// where the escape ends.
pub open spec fn unicode_escape(t: Seq<char>, i: int) -> Option<(char, int)> {
    match hex4(t, i + 2) {
        None => None,
        Some(hi) => if 0xD800 <= hi && hi < 0xDC00 {
            if i + 8 <= t.len() && t[i + 6] == '\\' && t[i + 7] == 'u' {
                match hex4(t, i + 8) {
                    Some(lo) => if 0xDC00 <= lo && lo < 0xE000 {
                        match scalar_char((0x10000 + (hi - 0xD800) * 0x400 + (lo - 0xDC00)) as nat) {
                            Some(c) => Some((c, i + 12)),
                            None => None,
                        }
                    } else {
                        None
                    },
                    None => None,
                }
            } else {
                None
            }
        } else {
            match scalar_char(hi) {
                Some(c) => Some((c, i + 6)),
                None => None,
            }
        },
    }
}

pub open spec fn simple_escape(c: char) -> Option<char> {
    if c == '"' { Some('"') }
    else if c == '\\' { Some('\\') }
    else if c == '/' { Some('/') }
    else if c == 'b' { Some('\x08') }
    else if c == 'f' { Some('\x0c') }
    else if c == 'n' { Some('\n') }
    else if c == 'r' { Some('\r') }
    else if c == 't' { Some('\t') }
    else { None }
}

/// The rest of a JSON string from `i` (past its opening quote), `acc` read
/// so far: the string and the position after its closing quote.
pub open spec fn string_from(t: Seq<char>, i: int, acc: Seq<char>) -> Option<(Seq<char>, int)>
    decreases t.len() - i,
{
    if i < 0 || i >= t.len() {
        None
    } else if t[i] == '"' {
        Some((acc, i + 1))
    } else if t[i] == '\\' {
        if i + 1 >= t.len() {
            None
        } else if t[i + 1] == 'u' {
            match unicode_escape(t, i) {
                Some((c, j)) => if i < j && j <= t.len() {
                    string_from(t, j, acc.push(c))
                } else {
                    None
                },
                None => None,
            }
        } else {
            match simple_escape(t[i + 1]) {
                Some(c) => string_from(t, i + 2, acc.push(c)),
                None => None,
            }
        }
    } else if (t[i] as u32) < 0x20 {
        None
    } else {
        string_from(t, i + 1, acc.push(t[i]))
    }
}

/// The JSON string that starts at `i`.
pub open spec fn string_at(t: Seq<char>, i: int) -> Option<(Seq<char>, int)> {
    if 0 <= i < t.len() && t[i] == '"' {
        string_from(t, i + 1, Seq::empty())
    } else {
        None
    }
}

/// The end of the run of digits that starts at `i`.
pub open spec fn digits_end(t: Seq<char>, i: int) -> int
    decreases t.len() - i,
{
    if 0 <= i < t.len() && is_digit(t[i]) {
        digits_end(t, i + 1)
    } else {
        i
    }
}

/// The value of the digits from `i` up to `j`.
pub open spec fn digits_value(t: Seq<char>, i: int, j: int) -> nat
    decreases j - i,
{
    if j <= i {
        0
    } else {
        digits_value(t, i, j - 1) * 10 + digit_value(t[j - 1])
    }
}

/// The byte value written at `i` as a JSON integer, and where it ends. A
/// fraction, an exponent, a sign or a leading zero makes it no byte.
pub open spec fn byte_at(t: Seq<char>, i: int) -> Option<(u8, int)> {
    let e = digits_end(t, i);
    if !(0 <= i < t.len()) || e == i {
        None
    } else if t[i] == '0' && e > i + 1 {
        None
    } else if e < t.len() && (t[e] == '.' || t[e] == 'e' || t[e] == 'E') {
        None
    } else if digits_value(t, i, e) > 255 {
        None
    } else {
        Some((digits_value(t, i, e) as u8, e))
    }
}

/// The end of the JSON number that starts at `i`.
pub open spec fn number_end(t: Seq<char>, i: int) -> Option<int> {
    let a = if 0 <= i < t.len() && t[i] == '-' { i + 1 } else { i };
    let b = digits_end(t, a);
    if !(0 <= a < t.len()) || b == a || (t[a] == '0' && b > a + 1) {
        None
    } else {
        let f = if b < t.len() && t[b] == '.' { digits_end(t, b + 1) } else { b };
        if b < t.len() && t[b] == '.' && f == b + 1 {
            None
        } else if f < t.len() && (t[f] == 'e' || t[f] == 'E') {
            let k = if f + 1 < t.len() && (t[f + 1] == '+' || t[f + 1] == '-') { f + 2 } else { f + 1 };
            let m = digits_end(t, k);
            if m == k {
                None
            } else {
                Some(m)
            }
        } else {
            Some(f)
        }
    }
}

/// Deepest nesting of arrays and objects that is read, the container object
/// counted; deeper text is refused rather than read on the stack.
pub const MAX_DEPTH: u32 = 128;

/// The end of the JSON value at `i`, nested `depth` deep: a string, a number,
/// `true`, `false`, `null`, an array or an object.
pub open spec fn value_end(t: Seq<char>, i: int, depth: nat) -> Option<int>
    decreases t.len() - i, 0int,
{
    if !(0 <= i < t.len()) {
        None
    } else if t[i] == '"' {
        match string_at(t, i) {
            Some((_, j)) => Some(j),
            None => None,
        }
    } else if t[i] == '[' || t[i] == '{' {
        let j = skip_ws(t, i + 1);
        if depth >= MAX_DEPTH || !(i < j && j <= t.len()) {
            None
        } else if t[i] == '[' {
            elements_end(t, j, true, depth + 1)
        } else {
            entries_end(t, j, true, depth + 1)
        }
    } else if stands_at(t, i, "true"@) {
        Some(i + 4)
    } else if stands_at(t, i, "false"@) {
        Some(i + 5)
    } else if stands_at(t, i, "null"@) {
        Some(i + 4)
    } else {
        number_end(t, i)
    }
}

/// The end of an array from `j` (past `[` and whitespace), `first` before
/// any element.
pub open spec fn elements_end(t: Seq<char>, j: int, first: bool, depth: nat) -> Option<int>
    decreases t.len() - j, 1int,
{
    if !(0 <= j < t.len()) {
        None
    } else if first && t[j] == ']' {
        Some(j + 1)
    } else {
        match value_end(t, j, depth) {
            None => None,
            Some(e) => {
                let n = skip_ws(t, e);
                if !(j < e && e <= t.len()) || !(0 <= n < t.len()) {
                    None
                } else if t[n] == ']' {
                    Some(n + 1)
                } else if t[n] == ',' {
                    let m = skip_ws(t, n + 1);
                    if j < m && m <= t.len() {
                        elements_end(t, m, false, depth)
                    } else {
                        None
                    }
                } else {
                    None
                }
            },
        }
    }
}

/// The end of an object from `j` (past `{` and whitespace), `first` before
/// any member.
pub open spec fn entries_end(t: Seq<char>, j: int, first: bool, depth: nat) -> Option<int>
    decreases t.len() - j, 1int,
{
    if !(0 <= j < t.len()) {
        None
    } else if first && t[j] == '}' {
        Some(j + 1)
    } else {
        match string_at(t, j) {
            None => None,
            Some((_, k)) => {
                let c = skip_ws(t, k);
                if !(0 <= c < t.len()) || t[c] != ':' {
                    None
                } else {
                    let v = skip_ws(t, c + 1);
                    if !(j < v && v <= t.len()) {
                        None
                    } else {
                        match value_end(t, v, depth) {
                            None => None,
                            Some(e) => {
                                let n = skip_ws(t, e);
                                if !(v < e && e <= t.len()) || !(0 <= n < t.len()) {
                                    None
                                } else if t[n] == '}' {
                                    Some(n + 1)
                                } else if t[n] == ',' {
                                    let m = skip_ws(t, n + 1);
                                    if j < m && m <= t.len() {
                                        entries_end(t, m, false, depth)
                                    } else {
                                        None
                                    }
                                } else {
                                    None
                                }
                            },
                        }
                    }
                }
            },
        }
    }
}

/// The members of a container object read so far.
pub struct Fields {
    pub version: Option<u8>,
    pub salt: Option<Seq<char>>,
    pub nonce: Option<Seq<char>>,
    pub ciphertext: Option<Seq<char>>,
    pub public_key: Option<Option<Seq<char>>>,
}

pub open spec fn no_fields() -> Fields {
    Fields { version: None, salt: None, nonce: None, ciphertext: None, public_key: None }
}

/// The string member value at `v`, stored as `set` says, unless one was read before.
pub open spec fn string_member(t: Seq<char>, v: int, already: bool) -> Option<(Seq<char>, int)> {
    if already {
        None
    } else {
        string_at(t, v)
    }
}

/// The member whose key starts at `i`: the fields with it, and where its
/// value ends. A key read twice makes the object no container.
#[verifier::opaque]
pub open spec fn member(t: Seq<char>, i: int, f: Fields) -> Option<(Fields, int)> {
    match string_at(t, i) {
        None => None,
        Some((key, j)) => {
            let k = skip_ws(t, j);
            if !(0 <= k < t.len()) || t[k] != ':' {
                None
            } else {
                let v = skip_ws(t, k + 1);
                if key == "version"@ {
                    if f.version is Some {
                        None
                    } else {
                        match byte_at(t, v) {
                            Some((n, e)) => Some((Fields { version: Some(n), ..f }, e)),
                            None => None,
                        }
                    }
                } else if key == "salt"@ {
                    match string_member(t, v, f.salt is Some) {
                        Some((s, e)) => Some((Fields { salt: Some(s), ..f }, e)),
                        None => None,
                    }
                } else if key == "nonce"@ {
                    match string_member(t, v, f.nonce is Some) {
                        Some((s, e)) => Some((Fields { nonce: Some(s), ..f }, e)),
                        None => None,
                    }
                } else if key == "ciphertext"@ {
                    match string_member(t, v, f.ciphertext is Some) {
                        Some((s, e)) => Some((Fields { ciphertext: Some(s), ..f }, e)),
                        None => None,
                    }
                } else if key == "public_key"@ {
                    if f.public_key is Some {
                        None
                    } else if stands_at(t, v, "null"@) {
                        Some((Fields { public_key: Some(None), ..f }, v + 4))
                    } else {
                        match string_at(t, v) {
                            Some((s, e)) => Some((Fields { public_key: Some(Some(s)), ..f }, e)),
                            None => None,
                        }
                    }
                } else {
                    match value_end(t, v, 1) {
                        Some(e) => Some((f, e)),
                        None => None,
                    }
                }
            }
        },
    }
}

/// The members from the key at `i` to the end of the object, which must
/// end the text but for whitespace.
pub open spec fn members(t: Seq<char>, i: int, f: Fields) -> Option<Fields>
    decreases t.len() - i,
{
    match member(t, i, f) {
        None => None,
        Some((g, e)) => {
            let n = skip_ws(t, e);
            if !(i < e && e <= t.len()) || !(0 <= n < t.len()) {
                None
            } else if t[n] == ',' {
                let m = skip_ws(t, n + 1);
                if i < m && m <= t.len() {
                    members(t, m, g)
                } else {
                    None
                }
            } else if t[n] == '}' && skip_ws(t, n + 1) == t.len() {
                Some(g)
            } else {
                None
            }
        },
    }
}

/// The container whose members `f` holds, if it holds every required one.
pub open spec fn complete(f: Fields) -> Option<ContainerView> {
    match (f.version, f.salt, f.nonce, f.ciphertext) {
        (Some(version), Some(salt), Some(nonce), Some(ciphertext)) => Some(
            ContainerView {
                version,
                salt,
                nonce,
                ciphertext,
                public_key: match f.public_key {
                    Some(p) => p,
                    None => None,
                },
            },
        ),
        _ => None,
    }
}

/// The container that text `t` holds, if it holds one.
pub open spec fn parse_text(t: Seq<char>) -> Option<ContainerView> {
    let a = skip_ws(t, 0);
    if 0 <= a < t.len() && t[a] == '{' {
        let b = skip_ws(t, a + 1);
        match members(t, b, no_fields()) {
            Some(f) => complete(f),
            None => None,
        }
    } else {
        None
    }
}

pub open spec fn is_digit(c: char) -> bool {
    c == '0' || c == '1' || c == '2' || c == '3' || c == '4' || c == '5' || c == '6' || c == '7' || c == '8'
        || c == '9'
}

pub open spec fn digit_value(c: char) -> nat {
    if c == '0' { 0 }
    else if c == '1' { 1 }
    else if c == '2' { 2 }
    else if c == '3' { 3 }
    else if c == '4' { 4 }
    else if c == '5' { 5 }
    else if c == '6' { 6 }
    else if c == '7' { 7 }
    else if c == '8' { 8 }
    else { 9 }
}

proof fn lemma_digit_char(d: nat)
    requires
        d < 10,
    ensures
        is_digit(digit_char(d)),
        digit_value(digit_char(d)) == d,
{
}

/// The digits of a byte value: one, two or three of them, the first not a
/// zero unless it is the only one.
proof fn lemma_decimal_u8(w: nat)
    requires
        w < 256,
    ensures
        w < 10 ==> decimal(w) == seq![digit_char(w)],
        10 <= w < 100 ==> decimal(w) == seq![digit_char(w / 10), digit_char(w % 10)],
        100 <= w ==> decimal(w) == seq![digit_char(w / 100), digit_char((w / 10) % 10), digit_char(w % 10)],
{
    if w >= 100 {
        assert((w / 10) / 10 == w / 100);
        assert(decimal(w / 10) == seq![digit_char(w / 100), digit_char((w / 10) % 10)]) by {
            assert(decimal(w / 100) == seq![digit_char(w / 100)]);
        }
        assert(decimal(w) =~= seq![digit_char(w / 100), digit_char((w / 10) % 10), digit_char(w % 10)]);
    } else if w >= 10 {
        assert(decimal(w / 10) == seq![digit_char(w / 10)]);
        assert(decimal(w) =~= seq![digit_char(w / 10), digit_char(w % 10)]);
    }
}

/// A plain string followed by a quote reads back as itself.
proof fn lemma_string_plain(t: Seq<char>, i: int, s: Seq<char>, acc: Seq<char>)
    requires
        0 <= i,
        i + s.len() < t.len(),
        t.subrange(i, i + s.len()) == s,
        t[i + s.len()] == '"',
        is_plain(s),
    ensures
        string_from(t, i, acc) == Some((acc + s, i + s.len() + 1)),
    decreases s.len(),
{
    if s.len() == 0 {
        assert(acc + s =~= acc);
    } else {
        assert(t[i] == t.subrange(i, i + s.len())[0]);
        assert(is_plain_char(s[0]));
        let rest = s.subrange(1, s.len() as int);
        assert(t.subrange(i + 1, i + 1 + rest.len()) =~= rest) by {
            assert forall|k: int| 0 <= k < rest.len() implies t.subrange(i + 1, i + 1 + rest.len())[k] == rest[k] by {
                assert(t[i + 1 + k] == t.subrange(i, i + s.len())[1 + k]);
            }
        }
        assert(is_plain(rest));
        lemma_string_plain(t, i + 1, rest, acc.push(s[0]));
        assert(acc.push(s[0]) + rest =~= acc + s);
    }
}

proof fn lemma_hex_char(d: nat)
    requires
        d < 16,
    ensures
        hex_value(hex_char(d)) == Some(d),
{
    if d < 10 {
        lemma_digit_char(d);
    }
}

/// The escaped text of a string starts with the escaped first character.
proof fn lemma_escaped_front(s: Seq<char>)
    requires
        s.len() > 0,
    ensures
        json_escaped(s) == escape_one(s[0]) + json_escaped(s.drop_first()),
    decreases s.len(),
{
    if s.len() == 1 {
        assert(s.drop_first() =~= Seq::<char>::empty());
        assert(s.drop_last() =~= Seq::<char>::empty());
        assert(json_escaped(Seq::<char>::empty()) == Seq::<char>::empty());
        assert(json_escaped(s) =~= escape_one(s[0]) + json_escaped(s.drop_first()));
    } else {
        lemma_escaped_front(s.drop_last());
        assert(s.drop_last()[0] == s[0]);
        assert(s.drop_last().drop_first() =~= s.drop_first().drop_last());
        assert(s.drop_first().last() == s.last());
        assert(json_escaped(s) =~= escape_one(s[0]) + json_escaped(s.drop_first()));
    }
}

/// How string `s` is written, followed by a quote, reads back as `s`.
proof fn lemma_string_escaped(t: Seq<char>, i: int, s: Seq<char>, acc: Seq<char>)
    requires
        0 <= i,
        i + json_escaped(s).len() < t.len(),
        t.subrange(i, i + json_escaped(s).len()) == json_escaped(s),
        t[i + json_escaped(s).len()] == '"',
    ensures
        string_from(t, i, acc) == Some((acc + s, i + json_escaped(s).len() + 1)),
    decreases s.len(),
{
    let e = json_escaped(s);
    if s.len() == 0 {
        assert(e == Seq::<char>::empty());
        assert(acc + s =~= acc);
    } else {
        lemma_escaped_front(s);
        let c = s[0];
        let h = escape_one(c);
        let rest = s.drop_first();
        let er = json_escaped(rest);
        assert(e == h + er);
        assert forall|k: int| 0 <= k < h.len() implies t[i + k] == h[k] by {
            assert(t[i + k] == t.subrange(i, i + e.len())[k]);
        }
        assert(t.subrange(i + h.len(), i + h.len() + er.len()) =~= er) by {
            assert forall|k: int| 0 <= k < er.len() implies t.subrange(i + h.len(), i + h.len() + er.len())[k]
                == er[k] by {
                assert(t[i + h.len() + k] == t.subrange(i, i + e.len())[h.len() + k]);
            }
        }
        lemma_string_escaped(t, i + h.len(), rest, acc.push(c));
        assert(acc.push(c) + rest =~= acc + s);
        if c == '"' || c == '\\' || c == '\x08' || c == '\x0c' || c == '\n' || c == '\r' || c == '\t' {
            assert(t[i] == '\\' && t[i + 1] == h[1]);
        } else if (c as u32) < 0x20 {
            let code = c as u32;
            lemma_hex_char((code / 16) as nat);
            lemma_hex_char((code % 16) as nat);
            lemma_digit_char(0);
            assert(t[i] == '\\' && t[i + 1] == 'u' && t[i + 2] == '0' && t[i + 3] == '0');
            assert(t[i + 4] == hex_char((code / 16) as nat) && t[i + 5] == hex_char((code % 16) as nat));
            assert(hex4(t, i + 2) == Some(code as nat));
            lemma_scalar_char(code as nat, c);
            assert(unicode_escape(t, i) == Some((c, i + 6)));
        } else {
            assert(h == seq![c]);
            assert(t[i + 0] == h[0]);
            assert(t[i] == c);
        }
    }
}

/// A member `"key":"val"` at `i` reads back as its key and value.
proof fn lemma_string_member(t: Seq<char>, i: int, key: Seq<char>, val: Seq<char>)
    requires
        0 <= i,
        i + key.len() + json_escaped(val).len() + 5 <= t.len(),
        t[i] == '"',
        t.subrange(i + 1, i + 1 + key.len()) == key,
        t[i + 1 + key.len()] == '"',
        t[i + 2 + key.len()] == ':',
        t[i + 3 + key.len()] == '"',
        t.subrange(i + 4 + key.len(), i + 4 + key.len() + json_escaped(val).len()) == json_escaped(val),
        t[i + 4 + key.len() + json_escaped(val).len()] == '"',
        is_plain(key),
    ensures
        string_at(t, i) == Some((key, i + key.len() + 2)),
        skip_ws(t, i + key.len() + 2) == i + key.len() + 2,
        skip_ws(t, i + key.len() + 3) == i + key.len() + 3,
        t[i + key.len() + 2] == ':',
        string_at(t, i + key.len() + 3) == Some((val, i + key.len() + json_escaped(val).len() + 5)),
{
    lemma_string_plain(t, i + 1, key, Seq::empty());
    assert(Seq::<char>::empty() + key =~= key);
    lemma_string_escaped(t, i + 4 + key.len(), val, Seq::empty());
    assert(Seq::<char>::empty() + val =~= val);
}

/// The decimal text of a byte, followed by a comma, reads back as the byte.
proof fn lemma_byte_decimal(t: Seq<char>, i: int, v: u8)
    requires
        0 <= i,
        i + decimal(v as nat).len() < t.len(),
        t.subrange(i, i + decimal(v as nat).len()) == decimal(v as nat),
        t[i + decimal(v as nat).len()] == ',',
    ensures
        byte_at(t, i) == Some((v, i + decimal(v as nat).len())),
{
    let d = decimal(v as nat);
    lemma_decimal_u8(v as nat);
    let w = v as nat;
    if w < 10 {
        lemma_digit_char(w);
        assert(t[i] == d[0]);
        assert(digits_end(t, i + 1) == i + 1);
        assert(digits_end(t, i) == i + 1);
        assert(digits_value(t, i, i) == 0);
        assert(digits_value(t, i, i + 1) == digits_value(t, i, i) * 10 + digit_value(t[i]));
    } else if w < 100 {
        lemma_digit_char(w / 10);
        lemma_digit_char(w % 10);
        assert(t[i] == d[0] && t[i + 1] == d[1]);
        assert(digits_end(t, i + 2) == i + 2);
        assert(digits_end(t, i + 1) == i + 2);
        assert(digits_end(t, i) == i + 2);
        assert(digits_value(t, i, i) == 0);
        assert(digits_value(t, i, i + 1) == digit_value(t[i]));
        assert(digits_value(t, i, i + 2) == digits_value(t, i, i + 1) * 10 + digit_value(t[i + 1]));
    } else {
        lemma_digit_char(w / 100);
        lemma_digit_char((w / 10) % 10);
        lemma_digit_char(w % 10);
        assert(t[i] == d[0] && t[i + 1] == d[1] && t[i + 2] == d[2]);
        assert(digits_end(t, i + 3) == i + 3);
        assert(digits_end(t, i + 2) == i + 3);
        assert(digits_end(t, i + 1) == i + 3);
        assert(digits_end(t, i) == i + 3);
        assert(digits_value(t, i, i) == 0);
        assert(digits_value(t, i, i + 1) == digit_value(t[i]));
        assert(digits_value(t, i, i + 2) == digits_value(t, i, i + 1) * 10 + digit_value(t[i + 1]));
        assert(digits_value(t, i, i + 3) == digits_value(t, i, i + 2) * 10 + digit_value(t[i + 2]));
    }
}

/// Where the parts of the text of a container without escapes stand.
#[verifier::spinoff_prover]
proof fn lemma_written_parts(c: ContainerView)
    ensures
        ({
            let t = container_text(c);
            let d = decimal(c.version as nat);
            let pl: int = 11 + (d.len() as int);
            let es: int = pl + 9 + json_escaped(c.salt).len();
            let en: int = es + 11 + json_escaped(c.nonce).len();
            let pt: int = en + 16 + json_escaped(c.ciphertext).len();
            &&& t.subrange(0, 11) == "{\"version\":"@
            &&& t.subrange(11, pl) == d
            &&& t.subrange(pl, pl + 9) == ",\"salt\":\""@
            &&& t.subrange(pl + 9, es) == json_escaped(c.salt)
            &&& t.subrange(es, es + 11) == "\",\"nonce\":\""@
            &&& t.subrange(es + 11, en) == json_escaped(c.nonce)
            &&& t.subrange(en, en + 16) == "\",\"ciphertext\":\""@
            &&& t.subrange(en + 16, pt) == json_escaped(c.ciphertext)
            &&& t.subrange(pt, t.len() as int) == match c.public_key {
                Some(p) => "\",\"public_key\":\""@ + json_escaped(p) + "\"}"@,
                None => "\"}"@,
            }
            &&& t.len() == pt + match c.public_key {
                Some(p) => 18 + json_escaped(p).len(),
                None => 2,
            }
        }),
{
    reveal_strlit("{\"version\":");
    reveal_strlit(",\"salt\":\"");
    reveal_strlit("\",\"nonce\":\"");
    reveal_strlit("\",\"ciphertext\":\"");
    let t = container_text(c);
    let d = decimal(c.version as nat);
    let pl: int = 11 + (d.len() as int);
    let es: int = pl + 9 + json_escaped(c.salt).len();
    let en: int = es + 11 + json_escaped(c.nonce).len();
    let pt: int = en + 16 + json_escaped(c.ciphertext).len();
    let head = "{\"version\":"@ + d + ",\"salt\":\""@ + json_escaped(c.salt) + "\",\"nonce\":\""@ + json_escaped(c.nonce) + "\",\"ciphertext\":\""@
        + json_escaped(c.ciphertext);
    let tail = match c.public_key {
        Some(p) => "\",\"public_key\":\""@ + json_escaped(p) + "\"}"@,
        None => "\"}"@,
    };
    reveal_strlit("\",\"public_key\":\"");
    reveal_strlit("\"}");
    assert(t == head + tail);
    assert(head.len() == pt);
    assert(t.subrange(0, 11) =~= "{\"version\":"@);
    assert(t.subrange(11, pl) =~= d);
    assert(t.subrange(pl, pl + 9) =~= ",\"salt\":\""@);
    assert(t.subrange(pl + 9, es) =~= json_escaped(c.salt));
    assert(t.subrange(es, es + 11) =~= "\",\"nonce\":\""@);
    assert(t.subrange(es + 11, en) =~= json_escaped(c.nonce));
    assert(t.subrange(en, en + 16) =~= "\",\"ciphertext\":\""@);
    assert(t.subrange(en + 16, pt) =~= json_escaped(c.ciphertext));
    assert(t.subrange(pt, t.len() as int) =~= tail);
}

/// `t[pos + k]` is the `k`th character of what stands at `pos`.
proof fn lemma_char_in(t: Seq<char>, pos: int, len: int, s: Seq<char>, k: int)
    requires
        0 <= pos,
        0 <= k < len,
        pos + len <= t.len(),
        t.subrange(pos, pos + len) == s,
    ensures
        t[pos + k] == s[k],
{
    assert(t[pos + k] == t.subrange(pos, pos + len)[k]);
}

/// The key of a member stands as `lit` at `pos` within the text.
proof fn lemma_key_in(t: Seq<char>, pos: int, len: int, s: Seq<char>, from: int, key: Seq<char>)
    requires
        0 <= pos,
        0 <= from,
        from + key.len() <= len,
        pos + len <= t.len(),
        t.subrange(pos, pos + len) == s,
        s.subrange(from, from + key.len()) == key,
    ensures
        t.subrange(pos + from, pos + from + key.len()) == key,
{
    assert forall|k: int| 0 <= k < key.len() implies t.subrange(pos + from, pos + from + key.len())[k] == key[k] by {
        lemma_char_in(t, pos, len, s, from + k);
        assert(key[k] == s.subrange(from, from + key.len())[k]);
    }
    assert(t.subrange(pos + from, pos + from + key.len()) =~= key);
}

/// The version member at the start of a written text.
proof fn lemma_version_member(t: Seq<char>, v: u8)
    requires
        11 + (decimal(v as nat).len() as int) + 9 <= t.len(),
        t.subrange(0, 11) == "{\"version\":"@,
        t.subrange(11, 11 + (decimal(v as nat).len() as int)) == decimal(v as nat),
        t.subrange(11 + (decimal(v as nat).len() as int), 11 + (decimal(v as nat).len() as int) + 9) == ",\"salt\":\""@,
    ensures
        skip_ws(t, 0) == 0,
        t[0] == '{',
        skip_ws(t, 1) == 1,
        member(t, 1, no_fields()) == Some((Fields { version: Some(v), ..no_fields() }, 11 + (decimal(v as nat).len() as int))),
        t[11 + (decimal(v as nat).len() as int)] == ',',
{
    reveal(member);
    reveal_strlit("{\"version\":");
    reveal_strlit(",\"salt\":\"");
    reveal_strlit("version");
    let l1 = "{\"version\":"@;
    let pl = 11 + (decimal(v as nat).len() as int);
    lemma_char_in(t, 0, 11, l1, 0);
    lemma_char_in(t, 0, 11, l1, 1);
    lemma_char_in(t, 0, 11, l1, 9);
    lemma_char_in(t, 0, 11, l1, 10);
    lemma_char_in(t, pl, 9, ",\"salt\":\""@, 0);
    assert(l1.subrange(2, 9) =~= "version"@);
    lemma_key_in(t, 0, 11, l1, 2, "version"@);
    assert(is_plain("version"@));
    lemma_string_plain(t, 2, "version"@, Seq::empty());
    assert(Seq::<char>::empty() + "version"@ =~= "version"@);
    lemma_byte_decimal(t, 11, v);
}

/// A string member `"key":"val"` whose text stands as `before` (ending with
/// the opening quote of the value) at `pos`, then `val`, then `after`
/// (starting with the closing quote and one more character).
proof fn lemma_field_member(
    t: Seq<char>,
    pos: int,
    before: Seq<char>,
    key: Seq<char>,
    val: Seq<char>,
    after: Seq<char>,
)
    requires
        0 <= pos,
        after.len() >= 2,
        pos + before.len() + json_escaped(val).len() + after.len() <= t.len(),
        t.subrange(pos, pos + before.len()) == before,
        t.subrange(pos + before.len(), pos + before.len() + json_escaped(val).len()) == json_escaped(val),
        t.subrange(pos + before.len() + json_escaped(val).len(), pos + before.len() + json_escaped(val).len() + after.len()) == after,
        before.len() >= key.len() + 4,
        before[before.len() - key.len() - 4] == '"',
        before.subrange(before.len() - key.len() - 3, before.len() - 3) == key,
        before[before.len() - 3] == '"',
        before[before.len() - 2] == ':',
        before[before.len() - 1] == '"',
        after[0] == '"',
        is_plain(key),
    ensures
        ({
            let i = pos + before.len() - key.len() - 4;
            &&& string_at(t, i) == Some((key, i + key.len() + 2))
            &&& t[i + key.len() + 2] == ':'
            &&& skip_ws(t, i + key.len() + 2) == i + key.len() + 2
            &&& skip_ws(t, i + key.len() + 3) == i + key.len() + 3
            &&& string_at(t, i + key.len() + 3) == Some((val, pos + before.len() + json_escaped(val).len() + 1))
            &&& t[pos + before.len() + json_escaped(val).len() + 1] == after[1]
        }),
{
    let b = before.len() as int;
    let i = pos + b - key.len() - 4;
    lemma_char_in(t, pos, b, before, b - key.len() - 4);
    lemma_char_in(t, pos, b, before, b - 3);
    lemma_char_in(t, pos, b, before, b - 2);
    lemma_char_in(t, pos, b, before, b - 1);
    lemma_key_in(t, pos, b, before, b - key.len() - 3, key);
    lemma_char_in(t, pos + b + json_escaped(val).len(), after.len() as int, after, 0);
    lemma_char_in(t, pos + b + json_escaped(val).len(), after.len() as int, after, 1);
    lemma_string_member(t, i, key, val);
}

spec fn salt_key_pos(c: ContainerView) -> int {
    12 + (decimal(c.version as nat).len() as int)
}

spec fn nonce_key_pos(c: ContainerView) -> int {
    salt_key_pos(c) + 8 + json_escaped(c.salt).len() + 2
}

spec fn ciphertext_key_pos(c: ContainerView) -> int {
    nonce_key_pos(c) + 9 + json_escaped(c.nonce).len() + 2
}

spec fn tail_pos(c: ContainerView) -> int {
    ciphertext_key_pos(c) + 14 + json_escaped(c.ciphertext).len()
}

spec fn after_version(c: ContainerView) -> Fields {
    Fields { version: Some(c.version), ..no_fields() }
}

spec fn after_salt(c: ContainerView) -> Fields {
    Fields { salt: Some(c.salt), ..after_version(c) }
}

spec fn after_nonce(c: ContainerView) -> Fields {
    Fields { nonce: Some(c.nonce), ..after_salt(c) }
}

spec fn after_ciphertext(c: ContainerView) -> Fields {
    Fields { ciphertext: Some(c.ciphertext), ..after_nonce(c) }
}

/// One member, a comma, and the next key: the members from the first are
/// those from the next.
proof fn lemma_members_step(t: Seq<char>, i: int, f: Fields, g: Fields, e: int)
    requires
        member(t, i, f) == Some((g, e)),
        0 <= i < e,
        e + 1 < t.len(),
        t[e] == ',',
        t[e + 1] == '"',
    ensures
        members(t, i, f) == members(t, e + 1, g),
{
    let n = skip_ws(t, e);
    assert(n == e);
    let m = skip_ws(t, n + 1);
    assert(m == e + 1);
    assert(i < e && e <= t.len() && 0 <= n < t.len() && t[n] == ',' && i < m && m <= t.len());
    assert(members(t, i, f) == members(t, m, g));
}

/// One member that closes the object at the end of the text.
proof fn lemma_members_last(t: Seq<char>, i: int, f: Fields, g: Fields, e: int)
    requires
        member(t, i, f) == Some((g, e)),
        0 <= i < e,
        e + 1 == t.len(),
        t[e] == '}',
    ensures
        members(t, i, f) == Some(g),
{
    assert(skip_ws(t, e) == e);
    assert(skip_ws(t, e + 1) == t.len());
}

proof fn lemma_member_version(c: ContainerView)
    ensures
        parse_text(container_text(c)) == match members(container_text(c), 1, no_fields()) {
            Some(f) => complete(f),
            None => None,
        },
        member(container_text(c), 1, no_fields()) == Some((after_version(c), salt_key_pos(c) - 1)),
        container_text(c)[salt_key_pos(c) - 1] == ',',
        container_text(c)[salt_key_pos(c)] == '"',
        salt_key_pos(c) < container_text(c).len(),
{
    reveal_strlit(",\"salt\":\"");
    lemma_written_parts(c);
    let t = container_text(c);
    lemma_version_member(t, c.version);
    let pl = salt_key_pos(c) - 1;
    lemma_char_in(t, pl, 9, ",\"salt\":\""@, 1);
}

#[verifier::spinoff_prover]
#[verifier::rlimit(100)]
proof fn lemma_member_salt(c: ContainerView)
    ensures
        member(container_text(c), salt_key_pos(c), after_version(c)) == Some((after_salt(c), nonce_key_pos(c) - 1)),
        container_text(c)[nonce_key_pos(c) - 1] == ',',
        container_text(c)[nonce_key_pos(c)] == '"',
        nonce_key_pos(c) < container_text(c).len(),
{
    reveal(member);
    reveal_strlit(",\"salt\":\"");
    reveal_strlit("\",\"nonce\":\"");
    reveal_strlit("salt");
    reveal_strlit("version");
    lemma_written_parts(c);
    let t = container_text(c);
    let pl = salt_key_pos(c) - 1;
    assert(",\"salt\":\""@.subrange(2, 6) =~= "salt"@);
    assert(is_plain("salt"@));
    lemma_field_member(t, pl, ",\"salt\":\""@, "salt"@, c.salt, "\",\"nonce\":\""@);
    lemma_char_in(t, pl + 9 + json_escaped(c.salt).len(), 11, "\",\"nonce\":\""@, 2);
}

#[verifier::spinoff_prover]
#[verifier::rlimit(100)]
proof fn lemma_member_nonce(c: ContainerView)
    ensures
        member(container_text(c), nonce_key_pos(c), after_salt(c)) == Some((after_nonce(c), ciphertext_key_pos(c) - 1)),
        container_text(c)[ciphertext_key_pos(c) - 1] == ',',
        container_text(c)[ciphertext_key_pos(c)] == '"',
        ciphertext_key_pos(c) < container_text(c).len(),
{
    reveal(member);
    reveal_strlit("\",\"nonce\":\"");
    reveal_strlit("\",\"ciphertext\":\"");
    reveal_strlit("nonce");
    reveal_strlit("salt");
    reveal_strlit("version");
    lemma_written_parts(c);
    let t = container_text(c);
    let es = nonce_key_pos(c) - 2;
    assert("\",\"nonce\":\""@.subrange(3, 8) =~= "nonce"@);
    assert(is_plain("nonce"@));
    lemma_field_member(t, es, "\",\"nonce\":\""@, "nonce"@, c.nonce, "\",\"ciphertext\":\""@);
    lemma_char_in(t, es + 11 + json_escaped(c.nonce).len(), 16, "\",\"ciphertext\":\""@, 2);
}

#[verifier::spinoff_prover]
#[verifier::rlimit(100)]
proof fn lemma_member_ciphertext(c: ContainerView)
    ensures
        member(container_text(c), ciphertext_key_pos(c), after_nonce(c)) == Some(
            (after_ciphertext(c), tail_pos(c) + 1),
        ),
        container_text(c)[tail_pos(c)] == '"',
        c.public_key is None ==> container_text(c)[tail_pos(c) + 1] == '}' && tail_pos(c) + 2 == container_text(
            c,
        ).len(),
        c.public_key is Some ==> container_text(c)[tail_pos(c) + 1] == ',' && container_text(c)[tail_pos(c) + 2]
            == '"' && tail_pos(c) + 2 < container_text(c).len(),
{
    reveal(member);
    reveal_strlit("\",\"ciphertext\":\"");
    reveal_strlit("\",\"public_key\":\"");
    reveal_strlit("\"}");
    reveal_strlit("ciphertext");
    reveal_strlit("nonce");
    reveal_strlit("salt");
    reveal_strlit("version");
    lemma_written_parts(c);
    let t = container_text(c);
    let en = ciphertext_key_pos(c) - 2;
    let pt = tail_pos(c);
    let tail = match c.public_key {
        Some(p) => "\",\"public_key\":\""@ + json_escaped(p) + "\"}"@,
        None => "\"}"@,
    };
    assert(tail.len() >= 2 && tail[0] == '"');
    assert("\",\"ciphertext\":\""@.subrange(3, 13) =~= "ciphertext"@);
    assert(is_plain("ciphertext"@));
    lemma_field_member(t, en, "\",\"ciphertext\":\""@, "ciphertext"@, c.ciphertext, tail);
    lemma_char_in(t, pt, tail.len() as int, tail, 0);
    lemma_char_in(t, pt, tail.len() as int, tail, 1);
    if c.public_key is Some {
        lemma_char_in(t, pt, tail.len() as int, tail, 2);
    }
}

/// A `public_key` member with a string value, read where no public key was
/// read before.
proof fn lemma_public_key_member(t: Seq<char>, i: int, f: Fields, p: Seq<char>, v: int, e: int)
    requires
        f.public_key is None,
        string_at(t, i) == Some(("public_key"@, i + 12)),
        skip_ws(t, i + 12) == i + 12,
        t[i + 12] == ':',
        0 <= i,
        i + 12 < t.len(),
        skip_ws(t, i + 13) == v,
        !stands_at(t, v, "null"@),
        string_at(t, v) == Some((p, e)),
    ensures
        member(t, i, f) == Some((Fields { public_key: Some(Some(p)), ..f }, e)),
{
    reveal(member);
    reveal_strlit("public_key");
    reveal_strlit("version");
    reveal_strlit("salt");
    reveal_strlit("nonce");
    reveal_strlit("ciphertext");
    assert("public_key"@.len() != "version"@.len());
    assert("public_key"@.len() != "salt"@.len());
    assert("public_key"@.len() != "nonce"@.len());
    assert("public_key"@[0] != "ciphertext"@[0]);
}

#[verifier::spinoff_prover]
#[verifier::rlimit(100)]
proof fn lemma_member_public_key(c: ContainerView, p: Seq<char>)
    requires
        c.public_key == Some(p),
    ensures
        member(container_text(c), tail_pos(c) + 2, after_ciphertext(c)) == Some(
            (Fields { public_key: Some(Some(p)), ..after_ciphertext(c) }, tail_pos(c) + 17 + json_escaped(p).len()),
        ),
        container_text(c)[tail_pos(c) + 17 + json_escaped(p).len()] == '}',
        tail_pos(c) + 18 + json_escaped(p).len() == container_text(c).len(),
{
    reveal_strlit("\",\"public_key\":\"");
    reveal_strlit("\"}");
    reveal_strlit("public_key");
    reveal_strlit("ciphertext");
    reveal_strlit("nonce");
    reveal_strlit("salt");
    reveal_strlit("version");
    reveal_strlit("null");
    lemma_written_parts(c);
    let t = container_text(c);
    let pt = tail_pos(c);
    let l6 = "\",\"public_key\":\""@;
    let le = "\"}"@;
    let tail = l6 + json_escaped(p) + le;
    let pp: int = pt + 16;
    let ep: int = pp + json_escaped(p).len();
    assert(t.subrange(pt, pp) =~= l6) by {
        assert forall|k: int| 0 <= k < 16 implies t.subrange(pt, pp)[k] == l6[k] by {
            lemma_char_in(t, pt, tail.len() as int, tail, k);
        }
    }
    assert(t.subrange(pp, ep) =~= json_escaped(p)) by {
        assert forall|k: int| 0 <= k < json_escaped(p).len() implies t.subrange(pp, ep)[k] == json_escaped(p)[k] by {
            lemma_char_in(t, pt, tail.len() as int, tail, 16 + k);
        }
    }
    assert(t.subrange(ep, ep + 2) =~= le) by {
        lemma_char_in(t, pt, tail.len() as int, tail, 16 + (json_escaped(p).len() as int));
        lemma_char_in(t, pt, tail.len() as int, tail, 17 + (json_escaped(p).len() as int));
    }
    assert(l6.subrange(3, 13) =~= "public_key"@);
    assert(is_plain("public_key"@));
    lemma_field_member(t, pt, l6, "public_key"@, p, le);
    lemma_char_in(t, pt, tail.len() as int, tail, 15);
    if stands_at(t, pp - 1, "null"@) {
        assert(t.subrange(pp - 1, pp + 3)[0] == t[pp - 1]);
    }
    let i = pt + 2;
    assert(string_at(t, i) == Some(("public_key"@, i + 12)));
    assert(skip_ws(t, i + 12) == i + 12);
    assert(t[i + 12] == ':');
    assert(skip_ws(t, i + 13) == pp - 1);
    assert(string_at(t, pp - 1) == Some((p, ep + 1)));
    lemma_public_key_member(t, i, after_ciphertext(c), p, pp - 1, ep + 1);
}

/// What `to_json` writes for a container reads back as that container.
pub proof fn lemma_read_written(c: ContainerView)
    ensures
        parse_text(container_text(c)) == Some(c),
{
    let t = container_text(c);
    lemma_member_version(c);
    lemma_member_salt(c);
    lemma_member_nonce(c);
    lemma_member_ciphertext(c);
    lemma_members_step(t, 1, no_fields(), after_version(c), salt_key_pos(c) - 1);
    lemma_members_step(t, salt_key_pos(c), after_version(c), after_salt(c), nonce_key_pos(c) - 1);
    lemma_members_step(t, nonce_key_pos(c), after_salt(c), after_nonce(c), ciphertext_key_pos(c) - 1);
    match c.public_key {
        None => {
            lemma_members_last(t, ciphertext_key_pos(c), after_nonce(c), after_ciphertext(c), tail_pos(c) + 1);
        },
        Some(p) => {
            lemma_members_step(t, ciphertext_key_pos(c), after_nonce(c), after_ciphertext(c), tail_pos(c) + 1);
            lemma_member_public_key(c, p);
            lemma_members_last(
                t,
                tail_pos(c) + 2,
                after_ciphertext(c),
                Fields { public_key: Some(Some(p)), ..after_ciphertext(c) },
                tail_pos(c) + 17 + json_escaped(p).len(),
            );
        },
    }
}

// ---- Executable writing --------------------------------------------------

fn hex_digit_str(d: u32) -> (s: &'static str)
    requires
        d < 16,
    ensures
        s@ == seq![hex_char(d as nat)],
{
    proof {
        reveal_strlit("0"); reveal_strlit("1"); reveal_strlit("2"); reveal_strlit("3");
        reveal_strlit("4"); reveal_strlit("5"); reveal_strlit("6"); reveal_strlit("7");
        reveal_strlit("8"); reveal_strlit("9"); reveal_strlit("a"); reveal_strlit("b");
        reveal_strlit("c"); reveal_strlit("d"); reveal_strlit("e"); reveal_strlit("f");
    }
    let s = if d == 0 { "0" }
        else if d == 1 { "1" }
        else if d == 2 { "2" }
        else if d == 3 { "3" }
        else if d == 4 { "4" }
        else if d == 5 { "5" }
        else if d == 6 { "6" }
        else if d == 7 { "7" }
        else if d == 8 { "8" }
        else if d == 9 { "9" }
        else if d == 10 { "a" }
        else if d == 11 { "b" }
        else if d == 12 { "c" }
        else if d == 13 { "d" }
        else if d == 14 { "e" }
        else { "f" };
    assert(s@ =~= seq![hex_char(d as nat)]);
    s
}

/// Append how the character at `i` of `s` stands inside a JSON string.
fn push_escaped_char(out: &mut String, s: &str, i: usize)
    requires
        i < s@.len(),
    ensures
        final(out)@ == old(out)@ + escape_one(s@[i as int]),
{
    proof {
        reveal_strlit("\\\"");
        reveal_strlit("\\\\");
        reveal_strlit("\\b");
        reveal_strlit("\\f");
        reveal_strlit("\\n");
        reveal_strlit("\\r");
        reveal_strlit("\\t");
        reveal_strlit("\\u00");
    }
    let n = s.unicode_len();
    let c = s.get_char(i);
    if c == '"' {
        out.append("\\\"");
    } else if c == '\\' {
        out.append("\\\\");
    } else if c == '\x08' {
        out.append("\\b");
    } else if c == '\x0c' {
        out.append("\\f");
    } else if c == '\n' {
        out.append("\\n");
    } else if c == '\r' {
        out.append("\\r");
    } else if c == '\t' {
        out.append("\\t");
    } else if (c as u32) < 0x20 {
        out.append("\\u00");
        out.append(hex_digit_str(c as u32 / 16));
        out.append(hex_digit_str(c as u32 % 16));
    } else {
        out.append(s.substring_char(i, i + 1));
    }
    assert(final(out)@ =~= old(out)@ + escape_one(c));
}

/// Append `s` as it stands inside a JSON string.
pub fn push_json_string(out: &mut String, s: &str)
    ensures
        final(out)@ == old(out)@ + json_escaped(s@),
{
    let ghost start = out@;
    let n = s.unicode_len();
    let mut i: usize = 0;
    while i < n
        invariant
            n == s@.len(),
            i <= n,
            out@ == start + json_escaped(s@.subrange(0, i as int)),
        decreases n - i,
    {
        push_escaped_char(out, s, i);
        proof {
            let p = s@.subrange(0, i + 1);
            assert(p.drop_last() =~= s@.subrange(0, i as int));
            assert(p.last() == s@[i as int]);
        }
        i = i + 1;
    }
    assert(s@.subrange(0, n as int) =~= s@);
}

// ---- Executable reading --------------------------------------------------

/// Relies on std's `char::from_u32`: the character whose scalar value is
/// `code`; none for a surrogate or a value above 0x10FFFF.
#[verifier::external_body]
fn char_from_code(code: u32) -> (r: Option<char>)
    ensures
        r is Some <==> (code < 0xD800 || (0xE000 <= code && code <= 0x10FFFF)),
        r matches Some(c) ==> c as u32 == code,
{
    char::from_u32(code)
}

/// Relies on std's `FromIterator<char>` for `String`: the string of those
/// characters, in order.
#[verifier::external_body]
fn string_of(chars: &Vec<char>) -> (s: String)
    ensures
        s@ == chars@,
{
    chars.iter().collect()
}

/// The characters of `s`.
fn chars_of(s: &str) -> (v: Vec<char>)
    ensures
        v@ == s@,
{
    let n = s.unicode_len();
    let mut v: Vec<char> = Vec::new();
    let mut i: usize = 0;
    while i < n
        invariant
            n == s@.len(),
            i <= n,
            v@ == s@.subrange(0, i as int),
        decreases n - i,
    {
        v.push(s.get_char(i));
        i = i + 1;
        assert(v@ =~= s@.subrange(0, i as int));
    }
    assert(s@.subrange(0, n as int) =~= s@);
    v
}

/// Whether `key` is the text of `lit`.
fn key_is(key: &Vec<char>, lit: &str) -> (b: bool)
    ensures
        b == (key@ == lit@),
{
    let n = lit.unicode_len();
    if key.len() != n {
        return false;
    }
    let mut i: usize = 0;
    while i < n
        invariant
            n == lit@.len(),
            n == key@.len(),
            i <= n,
            forall|j: int| 0 <= j < i ==> key@[j] == lit@[j],
        decreases n - i,
    {
        if key[i] != lit.get_char(i) {
            return false;
        }
        i = i + 1;
    }
    assert(key@ =~= lit@);
    true
}

/// Whether `lit` stands in `t` at `pos`.
fn stands_at_x(t: &Vec<char>, pos: usize, lit: &str) -> (b: bool)
    requires
        pos <= t@.len(),
    ensures
        b == stands_at(t@, pos as int, lit@),
{
    let n = t.len();
    let m = lit.unicode_len();
    if m > n - pos {
        return false;
    }
    let mut i: usize = 0;
    while i < m
        invariant
            n == t@.len(),
            m == lit@.len(),
            pos + m <= n,
            i <= m,
            forall|j: int| 0 <= j < i ==> t@[pos + j] == lit@[j],
        decreases m - i,
    {
        if t[pos + i] != lit.get_char(i) {
            assert(t@.subrange(pos as int, pos + m)[i as int] != lit@[i as int]);
            return false;
        }
        i = i + 1;
    }
    assert(t@.subrange(pos as int, pos + m) =~= lit@);
    true
}

fn char_is_ws(c: char) -> (b: bool)
    ensures
        b == is_ws(c),
{
    c == ' ' || c == '\t' || c == '\n' || c == '\r'
}

fn char_is_digit(c: char) -> (b: bool)
    ensures
        b == is_digit(c),
{
    c == '0' || c == '1' || c == '2' || c == '3' || c == '4' || c == '5' || c == '6' || c == '7' || c == '8'
        || c == '9'
}

fn digit_of(c: char) -> (d: u32)
    requires
        is_digit(c),
    ensures
        d == digit_value(c),
{
    if c == '0' { 0 }
    else if c == '1' { 1 }
    else if c == '2' { 2 }
    else if c == '3' { 3 }
    else if c == '4' { 4 }
    else if c == '5' { 5 }
    else if c == '6' { 6 }
    else if c == '7' { 7 }
    else if c == '8' { 8 }
    else { 9 }
}

fn hex_of(c: char) -> (r: Option<u32>)
    ensures
        match r {
            Some(v) => hex_value(c) == Some(v as nat) && v < 16,
            None => hex_value(c) is None,
        },
{
    if char_is_digit(c) { Some(digit_of(c)) }
    else if c == 'a' || c == 'A' { Some(10) }
    else if c == 'b' || c == 'B' { Some(11) }
    else if c == 'c' || c == 'C' { Some(12) }
    else if c == 'd' || c == 'D' { Some(13) }
    else if c == 'e' || c == 'E' { Some(14) }
    else if c == 'f' || c == 'F' { Some(15) }
    else { None }
}

fn skip_ws_x(t: &Vec<char>, i: usize) -> (r: usize)
    requires
        i <= t@.len(),
    ensures
        r as int == skip_ws(t@, i as int),
        i <= r <= t@.len(),
{
    let n = t.len();
    let mut j = i;
    while j < n && char_is_ws(t[j])
        invariant
            n == t@.len(),
            i <= j <= n,
            skip_ws(t@, i as int) == skip_ws(t@, j as int),
        decreases n - j,
    {
        j = j + 1;
    }
    j
}

fn hex4_x(t: &Vec<char>, i: usize) -> (r: Option<u32>)
    ensures
        match r {
            Some(v) => hex4(t@, i as int) == Some(v as nat) && v < 0x10000,
            None => hex4(t@, i as int) is None,
        },
{
    let n = t.len();
    if i > n || n - i < 4 {
        return None;
    }
    let a = match hex_of(t[i]) { Some(v) => v, None => return None };
    let b = match hex_of(t[i + 1]) { Some(v) => v, None => return None };
    let c = match hex_of(t[i + 2]) { Some(v) => v, None => return None };
    let d = match hex_of(t[i + 3]) { Some(v) => v, None => return None };
    Some(a * 4096 + b * 256 + c * 16 + d)
}

/// Distinct characters have distinct scalar values.
proof fn lemma_code_injective(a: char, b: char)
    requires
        a as u32 == b as u32,
    ensures
        a == b,
{
}

proof fn lemma_scalar_char(code: nat, c: char)
    requires
        c as u32 == code,
        code < 0xD800 || (0xE000 <= code && code <= 0x10FFFF),
    ensures
        scalar_char(code) == Some(c),
{
    assert(code_of(c) as nat == code);
    let d = choose|d: char| #[trigger] code_of(d) as nat == code;
    assert(code_of(d) == code_of(c));
    lemma_code_injective(d, c);
    assert(scalar_char(code) == Some(d));
}

fn unicode_escape_x(t: &Vec<char>, i: usize) -> (r: Option<(char, usize)>)
    requires
        i + 1 < t@.len(),
    ensures
        match r {
            Some((c, k)) => unicode_escape(t@, i as int) == Some((c, k as int)) && i < k <= t@.len(),
            None => unicode_escape(t@, i as int) is None,
        },
{
    let n = t.len();
    let hi = match hex4_x(t, i + 2) { Some(v) => v, None => return None };
    if 0xD800 <= hi && hi < 0xDC00 {
        if n - i >= 8 && t[i + 6] == '\\' && t[i + 7] == 'u' {
            let lo = match hex4_x(t, i + 8) { Some(v) => v, None => return None };
            if 0xDC00 <= lo && lo < 0xE000 {
                let code = 0x10000 + (hi - 0xD800) * 0x400 + (lo - 0xDC00);
                match char_from_code(code) {
                    Some(c) => {
                        proof { lemma_scalar_char(code as nat, c); }
                        Some((c, i + 12))
                    },
                    None => None,
                }
            } else {
                None
            }
        } else {
            None
        }
    } else {
        match char_from_code(hi) {
            Some(c) => {
                proof { lemma_scalar_char(hi as nat, c); }
                Some((c, i + 6))
            },
            None => None,
        }
    }
}

fn simple_escape_x(c: char) -> (r: Option<char>)
    ensures
        r == simple_escape(c),
{
    if c == '"' { Some('"') }
    else if c == '\\' { Some('\\') }
    else if c == '/' { Some('/') }
    else if c == 'b' { Some('\x08') }
    else if c == 'f' { Some('\x0c') }
    else if c == 'n' { Some('\n') }
    else if c == 'r' { Some('\r') }
    else if c == 't' { Some('\t') }
    else { None }
}

/// The JSON string at `i`, and the position after it.
fn string_at_x(t: &Vec<char>, i: usize) -> (r: Option<(Vec<char>, usize)>)
    ensures
        match r {
            Some((s, e)) => string_at(t@, i as int) == Some((s@, e as int)) && i < e <= t@.len(),
            None => string_at(t@, i as int) is None,
        },
{
    let n = t.len();
    if i >= n || t[i] != '"' {
        return None;
    }
    let mut acc: Vec<char> = Vec::new();
    let mut j = i + 1;
    loop
        invariant
            n == t@.len(),
            i < j <= n,
            string_at(t@, i as int) == string_from(t@, j as int, acc@),
        decreases n - j,
    {
        if j >= n {
            return None;
        }
        let c = t[j];
        if c == '"' {
            return Some((acc, j + 1));
        }
        if c == '\\' {
            if n - j < 2 {
                return None;
            }
            let e = t[j + 1];
            if e == 'u' {
                match unicode_escape_x(t, j) {
                    Some((ch, k)) => {
                        acc.push(ch);
                        j = k;
                    },
                    None => return None,
                }
            } else {
                match simple_escape_x(e) {
                    Some(ch) => {
                        acc.push(ch);
                        j = j + 2;
                    },
                    None => return None,
                }
            }
        } else if (c as u32) < 0x20 {
            return None;
        } else {
            acc.push(c);
            j = j + 1;
        }
    }
}

fn digits_end_x(t: &Vec<char>, i: usize) -> (r: usize)
    requires
        i <= t@.len(),
    ensures
        r as int == digits_end(t@, i as int),
        i <= r <= t@.len(),
        forall|k: int| i <= k < r ==> is_digit(#[trigger] t@[k]),
{
    let n = t.len();
    let mut j = i;
    while j < n && char_is_digit(t[j])
        invariant
            n == t@.len(),
            i <= j <= n,
            digits_end(t@, i as int) == digits_end(t@, j as int),
            forall|k: int| i <= k < j ==> is_digit(#[trigger] t@[k]),
        decreases n - j,
    {
        j = j + 1;
    }
    j
}

/// The byte value written at `i`, and where it ends.
fn byte_at_x(t: &Vec<char>, i: usize) -> (r: Option<(u8, usize)>)
    requires
        i <= t@.len(),
    ensures
        match r {
            Some((v, e)) => byte_at(t@, i as int) == Some((v, e as int)) && e <= t@.len(),
            None => byte_at(t@, i as int) is None,
        },
{
    let n = t.len();
    if i >= n {
        return None;
    }
    let e = digits_end_x(t, i);
    if e == i {
        return None;
    }
    if t[i] == '0' && e > i + 1 {
        return None;
    }
    if e < n && (t[e] == '.' || t[e] == 'e' || t[e] == 'E') {
        return None;
    }
    let mut v: u32 = 0;
    let mut big = false;
    let mut k = i;
    while k < e
        invariant
            n == t@.len(),
            i <= k <= e <= n,
            forall|j: int| i <= j < e ==> is_digit(#[trigger] t@[j]),
            !big ==> v as nat == digits_value(t@, i as int, k as int) && v <= 255,
            big ==> digits_value(t@, i as int, k as int) > 255,
        decreases e - k,
    {
        let d = digit_of(t[k]);
        if !big {
            let w = v * 10 + d;
            if w > 255 {
                big = true;
            } else {
                v = w;
            }
        }
        k = k + 1;
    }
    if big {
        return None;
    }
    Some((v as u8, e))
}

/// The end of the JSON number at `i`.
fn number_end_x(t: &Vec<char>, i: usize) -> (r: Option<usize>)
    requires
        i <= t@.len(),
    ensures
        match r {
            Some(e) => number_end(t@, i as int) == Some(e as int) && e <= t@.len(),
            None => number_end(t@, i as int) is None,
        },
{
    let n = t.len();
    let a = if i < n && t[i] == '-' { i + 1 } else { i };
    let b = digits_end_x(t, a);
    if !(a < n) || b == a || (t[a] == '0' && b > a + 1) {
        return None;
    }
    let f = if b < n && t[b] == '.' { digits_end_x(t, b + 1) } else { b };
    if b < n && t[b] == '.' && f == b + 1 {
        return None;
    }
    if f < n && (t[f] == 'e' || t[f] == 'E') {
        let k = if f + 1 < n && (t[f + 1] == '+' || t[f + 1] == '-') { f + 2 } else { f + 1 };
        let m = digits_end_x(t, k);
        if m == k {
            None
        } else {
            Some(m)
        }
    } else {
        Some(f)
    }
}

/// The end of the JSON value at `i`, nested `depth` deep.
fn value_end_x(t: &Vec<char>, i: usize, depth: u32) -> (r: Option<usize>)
    requires
        i <= t@.len(),
        depth <= MAX_DEPTH,
    ensures
        match r {
            Some(e) => value_end(t@, i as int, depth as nat) == Some(e as int) && e <= t@.len(),
            None => value_end(t@, i as int, depth as nat) is None,
        },
    decreases t@.len() - i,
{
    proof {
        reveal_strlit("true");
        reveal_strlit("false");
        reveal_strlit("null");
    }
    let n = t.len();
    if i >= n {
        return None;
    }
    let c = t[i];
    if c == '"' {
        match string_at_x(t, i) {
            Some((_, e)) => Some(e),
            None => None,
        }
    } else if c == '[' || c == '{' {
        let j = skip_ws_x(t, i + 1);
        if depth >= MAX_DEPTH {
            return None;
        }
        let d = depth + 1;
        let mut k = j;
        let mut first = true;
        if c == '[' {
            loop
                invariant
                    n == t@.len(),
                    i < k <= n,
                    d == depth + 1,
                    d <= MAX_DEPTH,
                    value_end(t@, i as int, depth as nat) == elements_end(t@, k as int, first, d as nat),
                decreases n - k,
            {
                if k >= n {
                    return None;
                }
                if first && t[k] == ']' {
                    return Some(k + 1);
                }
                let e = match value_end_x(t, k, d) {
                    Some(e) => e,
                    None => return None,
                };
                if !(k < e) {
                    return None;
                }
                let m0 = skip_ws_x(t, e);
                if m0 >= n {
                    return None;
                }
                if t[m0] == ']' {
                    return Some(m0 + 1);
                }
                if t[m0] != ',' {
                    return None;
                }
                k = skip_ws_x(t, m0 + 1);
                first = false;
            }
        } else {
            loop
                invariant
                    n == t@.len(),
                    i < k <= n,
                    d == depth + 1,
                    d <= MAX_DEPTH,
                    value_end(t@, i as int, depth as nat) == entries_end(t@, k as int, first, d as nat),
                decreases n - k,
            {
                if k >= n {
                    return None;
                }
                if first && t[k] == '}' {
                    return Some(k + 1);
                }
                let kk = match string_at_x(t, k) {
                    Some((_, kk)) => kk,
                    None => return None,
                };
                let colon = skip_ws_x(t, kk);
                if colon >= n || t[colon] != ':' {
                    return None;
                }
                let v = skip_ws_x(t, colon + 1);
                let e = match value_end_x(t, v, d) {
                    Some(e) => e,
                    None => return None,
                };
                if !(v < e) {
                    return None;
                }
                let m0 = skip_ws_x(t, e);
                if m0 >= n {
                    return None;
                }
                if t[m0] == '}' {
                    return Some(m0 + 1);
                }
                if t[m0] != ',' {
                    return None;
                }
                k = skip_ws_x(t, m0 + 1);
                first = false;
            }
        }
    } else if stands_at_x(t, i, "true") {
        Some(i + 4)
    } else if stands_at_x(t, i, "false") {
        Some(i + 5)
    } else if stands_at_x(t, i, "null") {
        Some(i + 4)
    } else {
        number_end_x(t, i)
    }
}

/// The members read so far, as the reader holds them.
struct FieldsX {
    version: Option<u8>,
    salt: Option<Vec<char>>,
    nonce: Option<Vec<char>>,
    ciphertext: Option<Vec<char>>,
    public_key: Option<Option<Vec<char>>>,
}

pub open spec fn chars_view(v: Option<Vec<char>>) -> Option<Seq<char>> {
    match v {
        Some(s) => Some(s@),
        None => None,
    }
}

impl View for FieldsX {
    type V = Fields;

    closed spec fn view(&self) -> Fields {
        Fields {
            version: self.version,
            salt: chars_view(self.salt),
            nonce: chars_view(self.nonce),
            ciphertext: chars_view(self.ciphertext),
            public_key: match self.public_key {
                Some(p) => Some(chars_view(p)),
                None => None,
            },
        }
    }
}

/// The member whose key starts at `i`.
fn member_x(t: &Vec<char>, i: usize, f: FieldsX) -> (r: Option<(FieldsX, usize)>)
    requires
        i <= t@.len(),
    ensures
        match r {
            Some((g, e)) => member(t@, i as int, f@) == Some((g@, e as int)) && e <= t@.len(),
            None => member(t@, i as int, f@) is None,
        },
{
    proof {
        reveal(member);
    }
    proof {
        reveal_strlit("null");
    }
    let n = t.len();
    let (key, j) = match string_at_x(t, i) {
        Some(x) => x,
        None => return None,
    };
    let k = skip_ws_x(t, j);
    if k >= n || t[k] != ':' {
        return None;
    }
    let v = skip_ws_x(t, k + 1);
    if key_is(&key, "version") {
        if f.version.is_some() {
            return None;
        }
        match byte_at_x(t, v) {
            Some((b, e)) => Some((FieldsX { version: Some(b), ..f }, e)),
            None => None,
        }
    } else if key_is(&key, "salt") {
        if f.salt.is_some() {
            return None;
        }
        match string_at_x(t, v) {
            Some((s, e)) => Some((FieldsX { salt: Some(s), ..f }, e)),
            None => None,
        }
    } else if key_is(&key, "nonce") {
        if f.nonce.is_some() {
            return None;
        }
        match string_at_x(t, v) {
            Some((s, e)) => Some((FieldsX { nonce: Some(s), ..f }, e)),
            None => None,
        }
    } else if key_is(&key, "ciphertext") {
        if f.ciphertext.is_some() {
            return None;
        }
        match string_at_x(t, v) {
            Some((s, e)) => Some((FieldsX { ciphertext: Some(s), ..f }, e)),
            None => None,
        }
    } else if key_is(&key, "public_key") {
        if f.public_key.is_some() {
            return None;
        }
        if stands_at_x(t, v, "null") {
            return Some((FieldsX { public_key: Some(None), ..f }, v + 4));
        }
        match string_at_x(t, v) {
            Some((s, e)) => Some((FieldsX { public_key: Some(Some(s)), ..f }, e)),
            None => None,
        }
    } else {
        match value_end_x(t, v, 1) {
            Some(e) => Some((f, e)),
            None => None,
        }
    }
}

/// The container that `f` holds, if it holds every required member.
fn complete_x(f: FieldsX) -> (r: Option<EncryptedKeyContainer>)
    ensures
        match r {
            Some(c) => complete(f@) == Some(c@),
            None => complete(f@) is None,
        },
{
    match (f.version, f.salt, f.nonce, f.ciphertext) {
        (Some(version), Some(salt), Some(nonce), Some(ciphertext)) => {
            let public_key = match f.public_key {
                Some(Some(p)) => Some(string_of(&p)),
                _ => None,
            };
            Some(
                EncryptedKeyContainer {
                    version,
                    salt: string_of(&salt),
                    nonce: string_of(&nonce),
                    ciphertext: string_of(&ciphertext),
                    public_key,
                },
            )
        },
        _ => None,
    }
}

/// Read a container from JSON text: exactly the container that
/// `parse_text` finds in it, or none.
pub fn parse_json(text: &str) -> (r: Option<EncryptedKeyContainer>)
    ensures
        match r {
            Some(c) => parse_text(text@) == Some(c@),
            None => parse_text(text@) is None,
        },
{
    let t = chars_of(text);
    let n = t.len();
    let a = skip_ws_x(&t, 0);
    if !(a < n && t[a] == '{') {
        return None;
    }
    let b = skip_ws_x(&t, a + 1);
    let mut i = b;
    let mut f = FieldsX { version: None, salt: None, nonce: None, ciphertext: None, public_key: None };
    assert(f@ == no_fields());
    loop
        invariant
            n == t@.len(),
            t@ == text@,
            i <= n,
            members(t@, b as int, no_fields()) == members(t@, i as int, f@),
            parse_text(t@) == match members(t@, b as int, no_fields()) {
                Some(g) => complete(g),
                None => None,
            },
        decreases n - i,
    {
        let (g, e) = match member_x(&t, i, f) {
            Some(x) => x,
            None => return None,
        };
        if !(i < e && e <= n) {
            return None;
        }
        let k = skip_ws_x(&t, e);
        if k >= n {
            return None;
        }
        if t[k] == ',' {
            let m = skip_ws_x(&t, k + 1);
            if !(i < m && m <= n) {
                return None;
            }
            i = m;
            f = g;
        } else if t[k] == '}' && skip_ws_x(&t, k + 1) == n {
            return complete_x(g);
        } else {
            return None;
        }
    }
}

} // verus!

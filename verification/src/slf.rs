//! The `SLF0` serialization of an Xcode build log: its tokens and the log
//! sections in them.
//!
//! A token is a payload and the delimiter behind it. Strings, class names and
//! blobs have their decimal length as the payload and their bytes behind the
//! delimiter. Reading is total: a payload that is malformed is counted and
//! read as nothing.
use crate::double::{
    double_is_finite, double_key, is_finite, key_value, law_keys_order_as_numbers, order_key,
};
use crate::numeral::{
    bounded, decimal, integer_value, law_numbers_are_read_as_written, natural_value, parse_i64,
    parse_unsigned,
};
use crate::text::{
    law_trimming_takes_the_ends, lossy_text, opt_ref, str_eq, strs, trim, trimmed, utf8_lossy,
};
use vstd::prelude::*;
use vstd::string::*;

verus! {

/// One token.
#[derive(Debug, PartialEq, Eq)]
pub enum Token {
    Str(String),
    ClassDef(String),
    Blob,
    Int,
    /// A double, by its bits.
    Double(Option<u64>),
    ClassRef(Option<i64>),
    ArrayCount,
    Null,
}

/// One token, as text and numbers.
pub enum Tok {
    Str(Seq<char>),
    ClassDef(Seq<char>),
    Blob,
    Int,
    Double(Option<u64>),
    ClassRef(Option<i64>),
    ArrayCount,
    Null,
}

impl View for Token {
    type V = Tok;

    open spec fn view(&self) -> Tok {
        match self {
            Token::Str(s) => Tok::Str(s@),
            Token::ClassDef(s) => Tok::ClassDef(s@),
            Token::Blob => Tok::Blob,
            Token::Int => Tok::Int,
            Token::Double(d) => Tok::Double(*d),
            Token::ClassRef(r) => Tok::ClassRef(*r),
            Token::ArrayCount => Tok::ArrayCount,
            Token::Null => Tok::Null,
        }
    }
}

pub open spec fn toks(v: Seq<Token>) -> Seq<Tok> {
    v.map_values(|t: Token| t@)
}

pub open spec fn is_delimiter(b: u8) -> bool {
    b == 34 || b == 37 || b == 42 || b == 35 || b == 94 || b == 64 || b == 40 || b == 45
}

/// Bytes as characters, one for one: those outside ASCII become U+FFFD.
pub open spec fn ascii_text(bytes: Seq<u8>) -> Seq<char> {
    bytes.map_values(
        |b: u8|
            if b < 128 {
                b as char
            } else {
                '\u{FFFD}'
            },
    )
}

/// The length that a payload gives; `None` where it is malformed.
pub open spec fn payload_length(payload: Seq<u8>) -> Option<nat> {
    if payload.len() == 0 {
        Some(0)
    } else {
        match natural_value(trimmed(ascii_text(payload)), 10) {
            Some(n) if n <= usize::MAX => Some(n),
            _ => None,
        }
    }
}

/// The hexadecimal number of a payload; `None` where it is malformed.
pub open spec fn payload_number(payload: Seq<u8>) -> Option<i64> {
    if payload.len() == 0 {
        Some(0)
    } else {
        match bounded(
            integer_value(trimmed(ascii_text(payload)), 16),
            i64::MIN as int,
            i64::MAX as int,
        ) {
            Some(n) => Some(n as i64),
            None => None,
        }
    }
}

/// The value of an ASCII hexadecimal digit.
pub open spec fn hex_value(b: u8) -> Option<nat> {
    if 48 <= b <= 57 {
        Some((b - 48) as nat)
    } else if 97 <= b <= 102 {
        Some((b - 87) as nat)
    } else if 65 <= b <= 70 {
        Some((b - 55) as nat)
    } else {
        None
    }
}

/// The number whose bytes, the least significant first, are written as pairs of
/// hexadecimal digits; `None` where a character is no digit.
pub open spec fn little_endian(p: Seq<u8>) -> Option<nat>
    decreases p.len(),
{
    if p.len() < 2 {
        Some(0)
    } else {
        match (hex_value(p[0]), hex_value(p[1]), little_endian(p.skip(2))) {
            (Some(hi), Some(lo), Some(rest)) => Some(hi * 16 + lo + 256 * rest),
            _ => None,
        }
    }
}

/// The first delimiter at `i` or behind it, or the end.
pub open spec fn next_delimiter(data: Seq<u8>, i: int) -> int
    decreases data.len() - i,
{
    if i < 0 || i >= data.len() {
        data.len() as int
    } else if is_delimiter(data[i]) {
        i
    } else {
        next_delimiter(data, i + 1)
    }
}

pub open spec fn least(a: int, b: int) -> int {
    if a <= b {
        a
    } else {
        b
    }
}

/// A token with what its payload says: the token, whether the payload is
/// malformed, and where the next payload begins.
pub open spec fn token_at(data: Seq<u8>, start: int, d: int) -> (Tok, bool, int) {
    let payload = data.subrange(start, d);
    let b = data[d];
    if b == 34 || b == 37 || b == 42 {
        let len = payload_length(payload);
        let n = match len {
            Some(n) => n as int,
            None => 0,
        };
        let end = least(d + 1 + n, data.len() as int);
        let text = utf8_lossy(data.subrange(d + 1, end));
        (
            if b == 34 {
                Tok::Str(text)
            } else if b == 37 {
                Tok::ClassDef(text)
            } else {
                Tok::Blob
            },
            len is None,
            end,
        )
    } else if b == 94 {
        if payload.len() == 16 {
            match little_endian(payload) {
                Some(n) => (Tok::Double(Some(n as u64)), false, d + 1),
                None => (Tok::Double(None), true, d + 1),
            }
        } else {
            (Tok::Double(None), false, d + 1)
        }
    } else {
        let n = payload_number(payload);
        (
            if b == 35 {
                Tok::Int
            } else if b == 64 {
                Tok::ClassRef(n)
            } else if b == 40 {
                Tok::ArrayCount
            } else {
                Tok::Null
            },
            n is None,
            d + 1,
        )
    }
}

/// The tokens from `start` on, and how many of their payloads are malformed.
pub open spec fn tokens_from(data: Seq<u8>, start: int) -> (Seq<Tok>, nat)
    decreases data.len() - start,
{
    let d = next_delimiter(data, start);
    if start < 0 || d < start || d >= data.len() {
        (Seq::empty(), 0)
    } else {
        let t = token_at(data, start, d);
        let rest = tokens_from(
            data,
            if t.2 > start {
                t.2
            } else {
                start + 1
            },
        );
        (
            seq![t.0] + rest.0,
            rest.1 + if t.1 {
                1nat
            } else {
                0nat
            },
        )
    }
}

/// The tokens of a log: those behind the four bytes of its header.
pub open spec fn log_tokens(data: Seq<u8>) -> (Seq<Tok>, nat) {
    tokens_from(data, least(4, data.len() as int))
}

/// Whether a byte ends a payload.
pub fn is_delim(b: u8) -> (r: bool)
    ensures
        r == is_delimiter(b),
{
    b == 34 || b == 37 || b == 42 || b == 35 || b == 94 || b == 64 || b == 40 || b == 45
}

/// Bytes as characters, one for one.
pub fn ascii_lossy(bytes: &[u8]) -> (r: String)
    ensures
        r@ == ascii_text(bytes@),
{
    let mut r = String::new();
    let mut i: usize = 0;
    while i < bytes.len()
        invariant
            i <= bytes@.len(),
            r@ == ascii_text(bytes@.take(i as int)),
        decreases bytes@.len() - i,
    {
        let b = bytes[i];
        let c = if b < 128 {
            b as char
        } else {
            '\u{FFFD}'
        };
        proof {
            assert(ascii_text(bytes@.take(i + 1)) =~= ascii_text(bytes@.take(i as int)).push(c));
        }
        r.push(c);
        i += 1;
    }
    proof {
        assert(bytes@.take(i as int) =~= bytes@);
    }
    r
}

/// The value of an ASCII hexadecimal digit.
pub fn hex_val(b: u8) -> (r: Option<u8>)
    ensures
        match hex_value(b) {
            Some(n) => r is Some && r->0 == n && n < 16,
            None => r is None,
        },
{
    if 48 <= b && b <= 57 {
        Some(b - 48)
    } else if 97 <= b && b <= 102 {
        Some(b - 87)
    } else if 65 <= b && b <= 70 {
        Some(b - 55)
    } else {
        None
    }
}

proof fn lemma_little_endian_bound(p: Seq<u8>)
    requires
        little_endian(p) is Some,
    ensures
        p.len() <= 2 ==> little_endian(p)->0 < 0x100,
        p.len() <= 4 ==> little_endian(p)->0 < 0x1_0000,
        p.len() <= 6 ==> little_endian(p)->0 < 0x100_0000,
        p.len() <= 8 ==> little_endian(p)->0 < 0x1_0000_0000,
        p.len() <= 10 ==> little_endian(p)->0 < 0x100_0000_0000,
        p.len() <= 12 ==> little_endian(p)->0 < 0x1_0000_0000_0000,
        p.len() <= 14 ==> little_endian(p)->0 < 0x100_0000_0000_0000,
        p.len() <= 16 ==> little_endian(p)->0 < 0x1_0000_0000_0000_0000,
    decreases p.len(),
{
    if p.len() >= 2 {
        lemma_little_endian_bound(p.skip(2));
    }
}

/// The bits of a double that is written as sixteen hexadecimal digits, the least
/// significant byte first.
pub fn hex_bytes_to_f64_le(p: &[u8]) -> (r: Option<u64>)
    ensures
        p@.len() != 16 ==> r is None,
        p@.len() == 16 ==> match little_endian(p@) {
            Some(n) => r is Some && r->0 == n,
            None => r is None,
        },
{
    if p.len() != 16 {
        return None;
    }
    let mut i: usize = 16;
    let mut acc: u64 = 0;
    proof {
        assert(p@.skip(16) =~= Seq::empty());
    }
    while i > 0
        invariant
            p@.len() == 16,
            i <= 16,
            i % 2 == 0,
            little_endian(p@.skip(i as int)) == Some(acc as nat),
        decreases i,
    {
        let ghost tail = p@.skip(i as int);
        i -= 2;
        let ghost here = p@.skip(i as int);
        proof {
            lemma_little_endian_bound(tail);
            assert(here.skip(2) =~= tail);
            assert(here[0] == p@[i as int] && here[1] == p@[i + 1]);
        }
        let hi = hex_val(p[i]);
        let lo = hex_val(p[i + 1]);
        match (hi, lo) {
            (Some(h), Some(l)) => {
                acc = h as u64 * 16 + l as u64 + 256 * acc;
            },
            _ => {
                proof {
                    lemma_little_endian_none(p@, i as int);
                }
                return None;
            },
        }
    }
    proof {
        assert(p@.skip(0) =~= p@);
    }
    Some(acc)
}

proof fn lemma_little_endian_none(p: Seq<u8>, i: int)
    requires
        0 <= i <= p.len(),
        i % 2 == 0,
        little_endian(p.skip(i)) is None,
    ensures
        little_endian(p) is None,
    decreases i,
{
    if i == 0 {
        assert(p.skip(0) =~= p);
    } else {
        assert(p.skip(i - 2).skip(2) =~= p.skip(i));
        lemma_little_endian_none(p, i - 2);
    }
}

fn read_length(payload: &[u8]) -> (r: Option<usize>)
    ensures
        match payload_length(payload@) {
            Some(n) => r is Some && r->0 == n,
            None => r is None,
        },
{
    if payload.len() == 0 {
        return Some(0);
    }
    let p = ascii_lossy(payload);
    let t = trim(p.as_str());
    match parse_unsigned(t.as_str(), 10, usize::MAX as u64) {
        Some(n) => Some(n as usize),
        None => None,
    }
}

fn read_number(payload: &[u8]) -> (r: Option<i64>)
    ensures
        r == payload_number(payload@),
{
    if payload.len() == 0 {
        return Some(0);
    }
    let p = ascii_lossy(payload);
    let t = trim(p.as_str());
    parse_i64(t.as_str(), 16)
}

proof fn lemma_next_delimiter(data: Seq<u8>, i: int)
    requires
        0 <= i,
    ensures
        i <= data.len() ==> i <= next_delimiter(data, i) <= data.len(),
        next_delimiter(data, i) < data.len() ==> is_delimiter(data[next_delimiter(data, i)]),
    decreases data.len() - i,
{
    if i < data.len() && !is_delimiter(data[i]) {
        lemma_next_delimiter(data, i + 1);
    }
}

fn find_delimiter(data: &[u8], start: usize) -> (d: usize)
    requires
        start <= data@.len(),
    ensures
        d == next_delimiter(data@, start as int),
        start <= d <= data@.len(),
{
    let mut i: usize = start;
    while i < data.len() && !is_delim(data[i])
        invariant
            start <= i <= data@.len(),
            next_delimiter(data@, start as int) == next_delimiter(data@, i as int),
        decreases data@.len() - i,
    {
        i += 1;
    }
    i
}

/// The tokens of a log, and how many of their payloads are malformed.
pub fn tokenize_slf(data: &[u8]) -> (r: (Vec<Token>, usize))
    ensures
        toks(r.0@) == log_tokens(data@).0,
        r.1 == log_tokens(data@).1,
{
    let n: usize = data.len();
    let mut out: Vec<Token> = Vec::new();
    let mut desync: usize = 0;
    let mut pos: usize = if n < 4 {
        n
    } else {
        4
    };
    let ghost whole = log_tokens(data@);
    proof {
        assert(toks(out@) + tokens_from(data@, pos as int).0 =~= whole.0);
    }
    loop
        invariant
            n == data@.len(),
            whole == log_tokens(data@),
            pos <= n,
            desync <= pos,
            toks(out@) + tokens_from(data@, pos as int).0 == whole.0,
            desync + tokens_from(data@, pos as int).1 == whole.1,
        decreases n - pos,
    {
        let d = find_delimiter(data, pos);
        if d >= n {
            proof {
                assert(toks(out@) + Seq::<Tok>::empty() =~= toks(out@));
                assert(tokens_from(data@, pos as int) == (Seq::<Tok>::empty(), 0nat));
            }
            return (out, desync);
        }
        let ghost t = token_at(data@, pos as int, d as int);
        proof {
            lemma_next_delimiter(data@, pos as int);
        }
        let b = data[d];
        let payload = slice_of(data, pos, d);
        let mut malformed = false;
        let mut next: usize = d + 1;
        let token: Token;
        if b == 34 || b == 37 || b == 42 {
            let len = match read_length(payload.as_slice()) {
                Some(k) => k,
                None => {
                    malformed = true;
                    0
                },
            };
            let end: usize = if len < n - (d + 1) {
                d + 1 + len
            } else {
                n
            };
            let bytes = slice_of(data, d + 1, end);
            let text = lossy_text(bytes.as_slice());
            next = end;
            token =
            if b == 34 {
                Token::Str(text)
            } else if b == 37 {
                Token::ClassDef(text)
            } else {
                Token::Blob
            };
        } else if b == 94 {
            if payload.len() == 16 {
                match hex_bytes_to_f64_le(payload.as_slice()) {
                    Some(bits) => {
                        token = Token::Double(Some(bits));
                    },
                    None => {
                        malformed = true;
                        token = Token::Double(None);
                    },
                }
            } else {
                token = Token::Double(None);
            }
        } else {
            let v = read_number(payload.as_slice());
            malformed = v.is_none();
            token =
            if b == 35 {
                Token::Int
            } else if b == 64 {
                Token::ClassRef(v)
            } else if b == 40 {
                Token::ArrayCount
            } else {
                Token::Null
            };
        }
        proof {
            assert(token@ == t.0);
            assert(malformed == t.1);
            assert(next == t.2);
            assert(toks(out@.push(token)) =~= toks(out@).push(t.0));
            let rest = tokens_from(data@, next as int);
            assert(toks(out@).push(t.0) + rest.0 =~= toks(out@) + (seq![t.0] + rest.0));
        }
        out.push(token);
        if malformed {
            desync += 1;
        }
        pos = next;
    }
}

/// The bytes `data[lo..hi]`.
pub fn slice_of(data: &[u8], lo: usize, hi: usize) -> (r: Vec<u8>)
    requires
        lo <= hi <= data@.len(),
    ensures
        r@ == data@.subrange(lo as int, hi as int),
{
    let mut r: Vec<u8> = Vec::new();
    let mut i: usize = lo;
    while i < hi
        invariant
            lo <= i <= hi <= data@.len(),
            r@ == data@.subrange(lo as int, i as int),
        decreases hi - i,
    {
        r.push(data[i]);
        i += 1;
    }
    r
}

/// The class of a plain log section.
pub const CLASS_SECTION: &'static str = "IDEActivityLogSection";

/// The class of the section of one command.
pub const CLASS_COMMAND: &'static str = "IDEActivityLogCommandInvocationSection";

/// The two kinds of section.
#[derive(Debug, Clone, Copy, PartialEq, Eq, Structural)]
pub enum SectionClass {
    Section,
    Command,
}

/// A section of the log. Times are the order keys of their doubles.
#[derive(Debug)]
pub struct Section {
    pub cls: SectionClass,
    pub title: String,
    pub start_cf: i64,
    pub end_cf: i64,
}

/// A section of the log, as text and numbers.
pub struct Sec {
    pub cls: SectionClass,
    pub title: Seq<char>,
    pub start: int,
    pub end: int,
}

impl View for Section {
    type V = Sec;

    open spec fn view(&self) -> Sec {
        Sec {
            cls: self.cls,
            title: self.title@,
            start: self.start_cf as int,
            end: self.end_cf as int,
        }
    }
}

pub open spec fn secs(v: Seq<Section>) -> Seq<Sec> {
    v.map_values(|s: Section| s@)
}

/// The class names that the log defines, in order.
pub open spec fn class_table(tokens: Seq<Tok>) -> Seq<Seq<char>>
    decreases tokens.len(),
{
    if tokens.len() == 0 {
        Seq::empty()
    } else {
        let r = class_table(tokens.drop_last());
        match tokens.last() {
            Tok::ClassDef(s) => r.push(s),
            _ => r,
        }
    }
}

/// The class name that a reference stands for; references count from one.
pub open spec fn class_named(table: Seq<Seq<char>>, idx: int) -> Option<Seq<char>> {
    if 1 <= idx <= table.len() {
        Some(table[idx - 1])
    } else {
        None
    }
}

pub open spec fn section_class(name: Option<Seq<char>>) -> Option<SectionClass> {
    if name == Some(CLASS_SECTION@) {
        Some(SectionClass::Section)
    } else if name == Some(CLASS_COMMAND@) {
        Some(SectionClass::Command)
    } else {
        None
    }
}

/// The tokens behind a class reference have the shape of a section: a number,
/// three strings, two doubles, and a list or nothing.
pub open spec fn section_shape(t: Seq<Tok>, k: int) -> bool {
    &&& t[k + 1] is Int
    &&& t[k + 2] is Str
    &&& t[k + 3] is Str
    &&& t[k + 4] is Str
    &&& t[k + 5] is Double
    &&& t[k + 6] is Double
    &&& (t[k + 7] is ArrayCount || t[k + 7] is Null)
}

/// The section that begins at token `k`. Its times are there, finite and in
/// order.
pub open spec fn section_at(t: Seq<Tok>, table: Seq<Seq<char>>, k: int) -> Option<Sec> {
    match t[k] {
        Tok::ClassRef(Some(idx)) => match section_class(class_named(table, idx as int)) {
            Some(cls) => if section_shape(t, k) {
                match (t[k + 3], t[k + 5], t[k + 6]) {
                    (Tok::Str(title), Tok::Double(Some(s)), Tok::Double(Some(e))) => {
                        if is_finite(s) && is_finite(e) && order_key(s) <= order_key(e) {
                            Some(Sec { cls, title, start: order_key(s), end: order_key(e) })
                        } else {
                            None
                        }
                    },
                    _ => None,
                }
            } else {
                None
            },
            None => None,
        },
        _ => None,
    }
}

/// The sections that begin at the first `n` tokens.
pub open spec fn sections_upto(t: Seq<Tok>, table: Seq<Seq<char>>, n: int) -> Seq<Sec>
    decreases n,
{
    if n <= 0 {
        Seq::empty()
    } else {
        let r = sections_upto(t, table, n - 1);
        match section_at(t, table, n - 1) {
            Some(s) => r.push(s),
            None => r,
        }
    }
}

/// The sections of a log.
pub open spec fn log_sections(t: Seq<Tok>) -> Seq<Sec> {
    sections_upto(t, class_table(t), t.len() - 7)
}

fn read_classes(tokens: &Vec<Token>) -> (r: Vec<String>)
    ensures
        strs(r@) == class_table(toks(tokens@)),
{
    let ghost t = toks(tokens@);
    let mut out: Vec<String> = Vec::new();
    let mut i: usize = 0;
    proof {
        assert(strs(out@) =~= class_table(t.take(0)));
    }
    while i < tokens.len()
        invariant
            i <= tokens@.len(),
            t == toks(tokens@),
            strs(out@) == class_table(t.take(i as int)),
        decreases tokens@.len() - i,
    {
        proof {
            assert(t.take(i + 1).drop_last() =~= t.take(i as int));
            assert(t.take(i + 1).last() == tokens@[i as int]@);
        }
        match &tokens[i] {
            Token::ClassDef(s) => {
                let c = s.clone();
                proof {
                    assert(strs(out@.push(c)) =~= strs(out@).push(c@));
                }
                out.push(c);
            },
            _ => {},
        }
        i += 1;
    }
    proof {
        assert(t.take(i as int) =~= t);
    }
    out
}

/// The class name that a reference stands for; references count from one.
pub fn class_of(table: &Vec<String>, idx: i64) -> (r: Option<&String>)
    ensures
        opt_ref(r) == class_named(strs(table@), idx as int),
{
    if idx >= 1 && (idx as u64) <= table.len() as u64 {
        let i: usize = (idx - 1) as usize;
        proof {
            assert(strs(table@)[i as int] == table@[i as int]@);
        }
        Some(&table[i])
    } else {
        None
    }
}

fn read_section(tokens: &Vec<Token>, table: &Vec<String>, k: usize) -> (r: Option<Section>)
    requires
        k + 7 < tokens@.len(),
    ensures
        match section_at(toks(tokens@), strs(table@), k as int) {
            Some(s) => r is Some && r->0@ == s,
            None => r is None,
        },
{
    let ghost t = toks(tokens@);
    proof {
        assert forall|j: int| 0 <= j < tokens@.len() implies #[trigger] t[j] == tokens@[j]@ by {}
    }
    let n: usize = tokens.len();
    let idx = match &tokens[k] {
        Token::ClassRef(Some(v)) => *v,
        _ => {
            return None;
        },
    };
    let cls = match class_of(table, idx) {
        Some(name) => if str_eq(name.as_str(), CLASS_SECTION) {
            SectionClass::Section
        } else if str_eq(name.as_str(), CLASS_COMMAND) {
            SectionClass::Command
        } else {
            return None;
        },
        None => {
            return None;
        },
    };
    let head = match (&tokens[k + 1], &tokens[k + 2], &tokens[k + 4], &tokens[k + 7]) {
        (Token::Int, Token::Str(_), Token::Str(_), Token::ArrayCount) => true,
        (Token::Int, Token::Str(_), Token::Str(_), Token::Null) => true,
        _ => false,
    };
    if !head {
        return None;
    }
    match (&tokens[k + 3], &tokens[k + 5], &tokens[k + 6]) {
        (Token::Str(title), Token::Double(Some(s)), Token::Double(Some(e))) => {
            if double_is_finite(*s) && double_is_finite(*e) {
                let a = double_key(*s);
                let b = double_key(*e);
                if a <= b {
                    return Some(Section { cls, title: title.clone(), start_cf: a, end_cf: b });
                }
            }
            None
        },
        _ => None,
    }
}

/// The sections of a log.
pub fn extract_slf_sections(tokens: &Vec<Token>) -> (r: Vec<Section>)
    ensures
        secs(r@) == log_sections(toks(tokens@)),
{
    let table = read_classes(tokens);
    let ghost t = toks(tokens@);
    let ghost names = strs(table@);
    let mut out: Vec<Section> = Vec::new();
    let n: usize = if tokens.len() < 7 {
        0
    } else {
        tokens.len() - 7
    };
    let mut k: usize = 0;
    proof {
        assert(secs(out@) =~= sections_upto(t, names, 0));
    }
    while k < n
        invariant
            k <= n,
            n == if tokens@.len() < 7 {
                0
            } else {
                tokens@.len() - 7
            },
            t == toks(tokens@),
            names == strs(table@),
            secs(out@) == sections_upto(t, names, k as int),
        decreases n - k,
    {
        match read_section(tokens, &table, k) {
            Some(s) => {
                proof {
                    assert(secs(out@.push(s)) =~= secs(out@).push(s@));
                }
                out.push(s);
            },
            None => {},
        }
        k += 1;
    }
    proof {
        if tokens@.len() < 7 {
            assert(sections_upto(t, names, t.len() - 7) =~= Seq::empty());
        }
    }
    out
}

pub proof fn lemma_section_times(t: Seq<Tok>, table: Seq<Seq<char>>, n: int)
    ensures
        forall|i: int|
            0 <= i < sections_upto(t, table, n).len() ==> (#[trigger] sections_upto(
                t,
                table,
                n,
            )[i]).start <= sections_upto(t, table, n)[i].end,
        forall|i: int|
            0 <= i < sections_upto(t, table, n).len() ==> i64::MIN < (#[trigger] sections_upto(
                t,
                table,
                n,
            )[i]).start && sections_upto(t, table, n)[i].end <= i64::MAX,
    decreases n,
{
    if n > 0 {
        let r = sections_upto(t, table, n - 1);
        lemma_section_times(t, table, n - 1);
        assert forall|i: int| 0 <= i < sections_upto(t, table, n).len() implies (
        #[trigger] sections_upto(t, table, n)[i]).start <= sections_upto(t, table, n)[i].end && i64::MIN
            < sections_upto(t, table, n)[i].start && sections_upto(t, table, n)[i].end
            <= i64::MAX by {
            if i < r.len() {
                assert(sections_upto(t, table, n)[i] == r[i]);
            }
        }
    }
}

/// No section of a log ends before it starts.
pub proof fn law_sections_run_forward(t: Seq<Tok>, i: int)
    requires
        0 <= i < log_sections(t).len(),
    ensures
        key_value(log_sections(t)[i].start) <= key_value(log_sections(t)[i].end),
{
    lemma_section_times(t, class_table(t), t.len() - 7);
    law_keys_order_as_numbers(log_sections(t)[i].start, log_sections(t)[i].end);
}

proof fn lemma_section_is_listed(t: Seq<Tok>, table: Seq<Seq<char>>, n: int, k: int)
    requires
        0 <= k < n,
        section_at(t, table, k) is Some,
    ensures
        sections_upto(t, table, n).contains(section_at(t, table, k)->0),
    decreases n,
{
    let r = sections_upto(t, table, n - 1);
    let out = sections_upto(t, table, n);
    if k == n - 1 {
        assert(out[r.len() as int] == section_at(t, table, k)->0);
    } else {
        lemma_section_is_listed(t, table, n - 1, k);
        let x = section_at(t, table, k)->0;
        let i = choose|i: int| 0 <= i < r.len() && r[i] == x;
        assert(out[i] == x);
    }
}

/// A section is written as a reference to its class, a number, three strings of which the
/// second is the title, the time of its start and that of its end, and a list or nothing.
/// Every one that is written so, with times that are finite and in order, is read, with its
/// own title, start and end.
pub proof fn law_written_sections_are_read(
    t: Seq<Tok>,
    k: int,
    idx: i64,
    a: Seq<char>,
    title: Seq<char>,
    b: Seq<char>,
    start: u64,
    end: u64,
)
    requires
        0 <= k < t.len() - 7,
        t[k] == Tok::ClassRef(Some(idx)),
        1 <= idx <= class_table(t).len(),
        t[k + 1] is Int,
        t[k + 2] == Tok::Str(a),
        t[k + 3] == Tok::Str(title),
        t[k + 4] == Tok::Str(b),
        t[k + 5] == Tok::Double(Some(start)),
        t[k + 6] == Tok::Double(Some(end)),
        t[k + 7] is ArrayCount || t[k + 7] is Null,
        is_finite(start),
        is_finite(end),
        order_key(start) <= order_key(end),
    ensures
        class_table(t)[idx - 1] == "IDEActivityLogCommandInvocationSection"@ ==> log_sections(
            t,
        ).contains(
            (Sec {
                cls: SectionClass::Command,
                title,
                start: order_key(start),
                end: order_key(end),
            }),
        ),
        class_table(t)[idx - 1] == "IDEActivityLogSection"@ ==> log_sections(t).contains(
            (Sec {
                cls: SectionClass::Section,
                title,
                start: order_key(start),
                end: order_key(end),
            }),
        ),
{
    reveal_strlit("IDEActivityLogCommandInvocationSection");
    reveal_strlit("IDEActivityLogSection");
    if section_at(t, class_table(t), k) is Some {
        lemma_section_is_listed(t, class_table(t), t.len() - 7, k);
    }
    assert(CLASS_COMMAND@.len() != CLASS_SECTION@.len());
}

/// Class names count from one, in the order in which the log defines them.
pub proof fn law_classes_count_from_one(t: Seq<Tok>, name: Seq<char>)
    ensures
        class_table(t.push(Tok::ClassDef(name))) == class_table(t).push(name),
        class_named(class_table(t.push(Tok::ClassDef(name))), (class_table(t).len() + 1) as int) == Some(
            name,
        ),
        class_named(class_table(t), 0) is None,
        class_named(class_table(t), (class_table(t).len() + 1) as int) is None,
{
    assert(t.push(Tok::ClassDef(name)).drop_last() =~= t);
}

/// A payload of decimal digits gives a length: a string, a class name and a blob are as many
/// bytes behind their delimiter, and the next payload begins behind them.
pub proof fn law_strings_are_as_long_as_they_say(data: Seq<u8>, start: int, d: int, n: nat)
    requires
        0 <= start < d < data.len(),
        n <= usize::MAX,
        ascii_text(data.subrange(start, d)) == decimal(n),
        d + 1 + n <= data.len(),
    ensures
        data[d] == 34 ==> token_at(data, start, d) == (
            Tok::Str(utf8_lossy(data.subrange(d + 1, d + 1 + n))),
            false,
            d + 1 + n,
        ),
        data[d] == 37 ==> token_at(data, start, d) == (
            Tok::ClassDef(utf8_lossy(data.subrange(d + 1, d + 1 + n))),
            false,
            d + 1 + n,
        ),
        data[d] == 42 ==> token_at(data, start, d) == (Tok::Blob, false, d + 1 + n),
{
    let e = Seq::<char>::empty();
    let s = decimal(n);
    law_numbers_are_read_as_written(n);
    assert('0' <= s[0] <= '9');
    assert(s.last() == s[s.len() - 1]);
    law_trimming_takes_the_ends(e, s, e);
}

/// A byte that comes later in the sixteen digits of a double counts for more.
pub proof fn law_later_bytes_count_for_more(p: Seq<u8>, hi: u8, lo: u8)
    requires
        p.len() % 2 == 0,
        little_endian(p) is Some,
        hex_value(hi) is Some,
        hex_value(lo) is Some,
    ensures
        little_endian(p + seq![hi, lo]) == Some(
            (little_endian(p)->0 + (hex_value(hi)->0 * 16 + hex_value(lo)->0) * vstd::arithmetic::power::pow(
                256,
                (p.len() / 2) as nat,
            )) as nat,
        ),
    decreases p.len(),
{
    let w = p + seq![hi, lo];
    let x: int = (hex_value(hi)->0 * 16 + hex_value(lo)->0) as int;
    vstd::arithmetic::power::lemma_pow0(256);
    if p.len() == 0 {
        assert(w =~= seq![hi, lo]);
        assert(w.skip(2) =~= Seq::empty());
        assert(little_endian(w.skip(2)) == Some(0nat));
        assert(x * 1 == x);
    } else {
        let q = p.skip(2);
        assert(little_endian(q) is Some);
        law_later_bytes_count_for_more(q, hi, lo);
        assert(w.skip(2) =~= q + seq![hi, lo]);
        assert(w[0] == p[0] && w[1] == p[1]);
        let n = (q.len() / 2) as nat;
        assert((p.len() / 2) as nat == n + 1);
        let pw = vstd::arithmetic::power::pow(256, n);
        vstd::arithmetic::power::lemma_pow1(256);
        vstd::arithmetic::power::lemma_pow_adds(256, 1, n);
        assert(vstd::arithmetic::power::pow(256, n + 1) == 256 * pw);
        vstd::arithmetic::power::lemma_pow_positive(256, n);
        assert(256 * (x * pw) == x * (256 * pw)) by (nonlinear_arith);
        assert(x * pw >= 0) by (nonlinear_arith)
            requires
                x >= 0,
                pw > 0,
        ;
    }
}

/// The digits of a double are hexadecimal, in either case.
pub proof fn law_hexadecimal_digits(b: u8)
    ensures
        48 <= b <= 57 ==> hex_value(b) == Some((b - 48) as nat),
        97 <= b <= 102 ==> hex_value(b) == Some((10 + (b - 97)) as nat),
        65 <= b <= 70 ==> hex_value(b) == Some((10 + (b - 65)) as nat),
        b < 48 || 57 < b < 65 || 70 < b < 97 || 102 < b ==> hex_value(b) is None,
{
}

/// The tokens of a log begin behind its first four bytes.
pub proof fn law_tokens_begin_behind_the_header(data: Seq<u8>)
    ensures
        data.len() >= 4 ==> log_tokens(data) == tokens_from(data, 4),
        data.len() < 4 ==> log_tokens(data) == tokens_from(data, data.len() as int),
{
}

/// Which token a delimiter ends, and that a number goes on right behind it.
pub proof fn law_delimiters_tell_the_token(data: Seq<u8>, start: int, d: int)
    requires
        0 <= start <= d < data.len(),
    ensures
        data[d] == '#' as u8 ==> token_at(data, start, d).0 == Tok::Int,
        data[d] == '@' as u8 ==> token_at(data, start, d).0 is ClassRef,
        data[d] == '(' as u8 ==> token_at(data, start, d).0 == Tok::ArrayCount,
        data[d] == '-' as u8 ==> token_at(data, start, d).0 == Tok::Null,
        data[d] == '"' as u8 ==> token_at(data, start, d).0 is Str,
        data[d] == '%' as u8 ==> token_at(data, start, d).0 is ClassDef,
        data[d] == '*' as u8 ==> token_at(data, start, d).0 == Tok::Blob,
        data[d] == '^' as u8 ==> token_at(data, start, d).0 is Double,
        data[d] == '#' as u8 || data[d] == '@' as u8 || data[d] == '(' as u8 || data[d]
            == '-' as u8 || data[d] == '^' as u8 ==> token_at(data, start, d).2 == d + 1,
        data[d] == '^' as u8 && d - start != 16 ==> token_at(data, start, d).0 == Tok::Double(None)
            && !token_at(data, start, d).1,
        (data[d] == '#' as u8 || data[d] == '@' as u8 || data[d] == '(' as u8 || data[d]
            == '-' as u8) && d == start ==> !token_at(data, start, d).1,
        data[d] == '@' as u8 && d == start ==> token_at(data, start, d).0 == Tok::ClassRef(
            Some(0i64),
        ),
{
    assert(data.subrange(start, d).len() == d - start);
}

/// The next delimiter is one, and there is none before it.
pub proof fn law_the_next_delimiter(data: Seq<u8>, i: int, k: int)
    requires
        0 <= i <= data.len(),
    ensures
        i <= next_delimiter(data, i) <= data.len(),
        next_delimiter(data, i) < data.len() ==> is_delimiter(data[next_delimiter(data, i)]),
        i <= k < next_delimiter(data, i) ==> !is_delimiter(data[k]),
    decreases data.len() - i,
{
    if i < data.len() && !is_delimiter(data[i]) {
        law_the_next_delimiter(data, i + 1, k);
    }
}

/// Bytes that are ASCII stand for themselves.
pub proof fn law_ascii_bytes_stand_for_themselves(bytes: Seq<u8>, i: int)
    requires
        0 <= i < bytes.len(),
    ensures
        ascii_text(bytes).len() == bytes.len(),
        bytes[i] < 128 ==> ascii_text(bytes)[i] as int == bytes[i] as int,
        bytes[i] >= 128 ==> ascii_text(bytes)[i] == '\u{FFFD}',
{
}

} // verus!

//! Web page reading: markup is reduced to typed text chunks, links and
//! feed entries are picked out of it, and a page is read from its site's
//! `llms.txt` when there is one.
//!
//! Text is UTF-8 held as bytes. A markup byte outside ASCII is read as the
//! Latin-1 character of that value, as the scanner has always done.

use vstd::prelude::*;

use crate::http::{net_error_bytes, NetError};
use crate::json::{jentries, jget, jinsert, json_u64, object_insert, str_at, JModel, JsonValue};
use crate::mcp_wire::{num_ttl, number_ttl};
use crate::registry::{failure_model, success_model, ResultModel, ToolResult};
use crate::text::{utf8_lossy, all_digits, ascii_bytes, digits_value, dec, is_space, lit, lower, lower_seq, parse_digits, push_all};

verus! {

/// The kind of a chunk of page text.
#[derive(Debug, Clone, Copy, PartialEq, Eq, Structural)]
pub enum ChunkType {
    Title,
    Heading { level: u8 },
    Paragraph,
    Code,
    ListItem,
    Table,
}

/// The name of a chunk kind.
pub open spec fn chunk_type_name(t: ChunkType) -> Seq<u8> {
    match t {
        ChunkType::Title => lit("title"),
        ChunkType::Heading { .. } => lit("heading"),
        ChunkType::Paragraph => lit("paragraph"),
        ChunkType::Code => lit("code"),
        ChunkType::ListItem => lit("list_item"),
        ChunkType::Table => lit("table"),
    }
}

impl ChunkType {
    pub fn as_str(&self) -> (r: &'static str)
        ensures
            r.is_ascii(),
            lit(r) == chunk_type_name(*self),
    {
        proof {
            reveal_strlit("title");
            reveal_strlit("heading");
            reveal_strlit("paragraph");
            reveal_strlit("code");
            reveal_strlit("list_item");
            reveal_strlit("table");
        }
        match self {
            ChunkType::Title => "title",
            ChunkType::Heading { .. } => "heading",
            ChunkType::Paragraph => "paragraph",
            ChunkType::Code => "code",
            ChunkType::ListItem => "list_item",
            ChunkType::Table => "table",
        }
    }
}

/// A chunk of page text with its token estimate.
#[derive(Debug)]
pub struct Chunk {
    pub typ: ChunkType,
    pub text: Vec<u8>,
    pub tokens_estimate: usize,
}

/// Model of a chunk.
pub struct ChunkModel {
    pub typ: ChunkType,
    pub text: Seq<u8>,
    pub tokens: nat,
}

impl View for Chunk {
    type V = ChunkModel;

    open spec fn view(&self) -> ChunkModel {
        ChunkModel { typ: self.typ, text: self.text@, tokens: self.tokens_estimate as nat }
    }
}

/// Models of a list of chunks.
pub open spec fn cviews(s: Seq<Chunk>) -> Seq<ChunkModel> {
    s.map_values(|c: Chunk| c@)
}

/// The token estimate of a text: a quarter of its length, rounded up.
pub open spec fn token_estimate(len: nat) -> nat {
    (len + 3) / 4
}

// ---------------------------------------------------------------------
// UTF-8 and whitespace
// ---------------------------------------------------------------------

/// Whether `c` is a Unicode scalar value.
pub open spec fn is_scalar(c: u32) -> bool {
    c <= 0x10FFFF && !(0xD800 <= c && c <= 0xDFFF)
}

/// The UTF-8 encoding of a code point.
pub open spec fn utf8_enc(c: u32) -> Seq<u8> {
    if c < 0x80 {
        seq![c as u8]
    } else if c < 0x800 {
        seq![(0xC0 + c / 64) as u8, (0x80 + c % 64) as u8]
    } else if c < 0x10000 {
        seq![(0xE0 + c / 4096) as u8, (0x80 + (c / 64) % 64) as u8, (0x80 + c % 64) as u8]
    } else {
        seq![
            (0xF0 + c / 262144) as u8,
            (0x80 + (c / 4096) % 64) as u8,
            (0x80 + (c / 64) % 64) as u8,
            (0x80 + c % 64) as u8,
        ]
    }
}

/// Appends the UTF-8 encoding of a scalar value.
fn push_utf8(v: &mut Vec<u8>, c: u32)
    requires
        is_scalar(c),
    ensures
        final(v)@ == old(v)@ + utf8_enc(c),
{
    if c < 0x80 {
        v.push(c as u8);
    } else if c < 0x800 {
        assert(c / 64 < 32) by (nonlinear_arith)
            requires
                c < 0x800,
        ;
        v.push((0xC0 + c / 64) as u8);
        v.push((0x80 + c % 64) as u8);
    } else if c < 0x10000 {
        assert(c / 4096 < 16) by (nonlinear_arith)
            requires
                c < 0x10000,
        ;
        v.push((0xE0 + c / 4096) as u8);
        v.push((0x80 + (c / 64) % 64) as u8);
        v.push((0x80 + c % 64) as u8);
    } else {
        assert(c / 262144 < 8) by (nonlinear_arith)
            requires
                c <= 0x10FFFF,
        ;
        v.push((0xF0 + c / 262144) as u8);
        v.push((0x80 + (c / 4096) % 64) as u8);
        v.push((0x80 + (c / 64) % 64) as u8);
        v.push((0x80 + c % 64) as u8);
    }
    assert(v@ =~= old(v)@ + utf8_enc(c));
}

/// Whether three bytes encode one of the three-byte whitespace characters
/// (U+1680, U+2000 to U+200A, U+2028, U+2029, U+202F, U+205F, U+3000).
pub open spec fn ws3(a: u8, b: u8, c: u8) -> bool {
    ||| (a == 0xE1 && b == 0x9A && c == 0x80)
    ||| (a == 0xE2 && b == 0x80 && ((0x80 <= c && c <= 0x8A) || c == 0xA8 || c == 0xA9 || c == 0xAF))
    ||| (a == 0xE2 && b == 0x81 && c == 0x9F)
    ||| (a == 0xE3 && b == 0x80 && c == 0x80)
}

/// Length of the whitespace character that starts at `i`, or 0.
pub open spec fn ws_at(s: Seq<u8>, i: int) -> nat {
    if 0 <= i && i < s.len() && is_space(s[i]) {
        1
    } else if 0 <= i && i + 1 < s.len() && s[i] == 0xC2 && (s[i + 1] == 0x85 || s[i + 1] == 0xA0) {
        2
    } else if 0 <= i && i + 2 < s.len() && ws3(s[i], s[i + 1], s[i + 2]) {
        3
    } else {
        0
    }
}

/// Length of the whitespace character that ends at `j`, or 0.
pub open spec fn ws_before(s: Seq<u8>, j: int) -> nat {
    if 1 <= j && j <= s.len() && is_space(s[j - 1]) {
        1
    } else if 2 <= j && j <= s.len() && s[j - 2] == 0xC2 && (s[j - 1] == 0x85 || s[j - 1] == 0xA0) {
        2
    } else if 3 <= j && j <= s.len() && ws3(s[j - 3], s[j - 2], s[j - 1]) {
        3
    } else {
        0
    }
}

/// Start of `s[i..]` once leading whitespace is skipped.
pub open spec fn wskip(s: Seq<u8>, i: int) -> int
    decreases s.len() - i,
{
    if i < 0 || i >= s.len() || ws_at(s, i) == 0 {
        i
    } else {
        wskip(s, i + ws_at(s, i))
    }
}

/// End of `s[lo..j]` once trailing whitespace is dropped.
pub open spec fn wrskip(s: Seq<u8>, lo: int, j: int) -> int
    decreases j - lo,
{
    if j <= lo || ws_before(s, j) == 0 || j - ws_before(s, j) < lo {
        j
    } else {
        wrskip(s, lo, j - ws_before(s, j))
    }
}

/// UTF-8 text without leading and trailing Unicode whitespace.
pub open spec fn utrim(s: Seq<u8>) -> Seq<u8> {
    let a = wskip(s, 0);
    s.subrange(a, wrskip(s, a, s.len() as int))
}

proof fn lemma_wskip(s: Seq<u8>, i: int)
    requires
        0 <= i <= s.len(),
    ensures
        i <= wskip(s, i) <= s.len(),
    decreases s.len() - i,
{
    if i < s.len() && ws_at(s, i) > 0 {
        lemma_wskip(s, i + ws_at(s, i));
    }
}

proof fn lemma_wrskip(s: Seq<u8>, lo: int, j: int)
    requires
        0 <= lo <= j <= s.len(),
    ensures
        lo <= wrskip(s, lo, j) <= j,
    decreases j - lo,
{
    if !(j <= lo || ws_before(s, j) == 0 || j - ws_before(s, j) < lo) {
        lemma_wrskip(s, lo, j - ws_before(s, j));
    }
}

fn ws_at_exec(s: &[u8], i: usize) -> (r: usize)
    requires
        i <= s@.len(),
    ensures
        r == ws_at(s@, i as int),
{
    let n = s.len();
    if i < n && (s[i] == 32 || (9 <= s[i] && s[i] <= 13)) {
        1
    } else if n - i > 1 && s[i] == 0xC2 && (s[i + 1] == 0x85 || s[i + 1] == 0xA0) {
        2
    } else if n - i > 2 && is_ws3(s[i], s[i + 1], s[i + 2]) {
        3
    } else {
        0
    }
}

fn ws_before_exec(s: &[u8], j: usize) -> (r: usize)
    requires
        j <= s@.len(),
    ensures
        r == ws_before(s@, j as int),
{
    if 1 <= j && (s[j - 1] == 32 || (9 <= s[j - 1] && s[j - 1] <= 13)) {
        1
    } else if 2 <= j && s[j - 2] == 0xC2 && (s[j - 1] == 0x85 || s[j - 1] == 0xA0) {
        2
    } else if 3 <= j && is_ws3(s[j - 3], s[j - 2], s[j - 1]) {
        3
    } else {
        0
    }
}

fn is_ws3(a: u8, b: u8, c: u8) -> (r: bool)
    ensures
        r == ws3(a, b, c),
{
    (a == 0xE1 && b == 0x9A && c == 0x80) || (a == 0xE2 && b == 0x80 && ((0x80 <= c && c <= 0x8A) || c == 0xA8
        || c == 0xA9 || c == 0xAF)) || (a == 0xE2 && b == 0x81 && c == 0x9F) || (a == 0xE3 && b == 0x80 && c
        == 0x80)
}

/// Trims Unicode whitespace from both ends of UTF-8 text.
pub fn utrim_bytes(s: &[u8]) -> (r: &[u8])
    ensures
        r@ == utrim(s@),
{
    let n = s.len();
    let mut a: usize = 0;
    while a < n && ws_at_exec(s, a) > 0
        invariant
            0 <= a <= n,
            n == s@.len(),
            wskip(s@, 0) == wskip(s@, a as int),
        decreases n - a,
    {
        a = a + ws_at_exec(s, a);
    }
    let mut b: usize = n;
    while b > a && ws_before_exec(s, b) > 0 && b - a >= ws_before_exec(s, b)
        invariant
            a <= b <= n,
            n == s@.len(),
            wskip(s@, 0) == a,
            wrskip(s@, a as int, n as int) == wrskip(s@, a as int, b as int),
        decreases b - a,
    {
        b = b - ws_before_exec(s, b);
    }
    vstd::slice::slice_subrange(s, a, b)
}

// ---------------------------------------------------------------------
// Character references
// ---------------------------------------------------------------------

/// Value of a hexadecimal digit, or -1.
pub open spec fn hex_digit(b: u8) -> int {
    if 48 <= b && b <= 57 {
        b - 48
    } else if 97 <= b && b <= 102 {
        b - 87
    } else if 65 <= b && b <= 70 {
        b - 55
    } else {
        -1
    }
}

/// Value of a string of hexadecimal digits.
pub open spec fn hex_value(s: Seq<u8>) -> nat
    decreases s.len(),
{
    if s.len() == 0 {
        0
    } else {
        hex_value(s.drop_last()) * 16 + hex_digit(s.last()) as nat
    }
}

pub open spec fn all_hex(s: Seq<u8>) -> bool {
    forall|i: int| 0 <= i < s.len() ==> hex_digit(#[trigger] s[i]) >= 0
}

/// A `u32` in hexadecimal, with an optional `+` sign before the digits.
pub open spec fn hex_u32(s: Seq<u8>) -> Option<u32> {
    let d = if s.len() > 1 && s[0] == 43 {
        s.drop_first()
    } else {
        s
    };
    if d.len() > 0 && all_hex(d) && hex_value(d) <= u32::MAX {
        Some(hex_value(d) as u32)
    } else {
        None
    }
}

/// A `u32` in decimal; the empty string reads as 0.
pub open spec fn dec_u32(s: Seq<u8>) -> Option<u32> {
    if all_digits(s) && digits_value(s) <= u32::MAX {
        Some(digits_value(s) as u32)
    } else {
        None
    }
}

fn parse_hex_u32(s: &[u8]) -> (r: Option<u32>)
    ensures
        r == hex_u32(s@),
{
    let d: &[u8] = if s.len() > 1 && s[0] == 43 {
        vstd::slice::slice_subrange(s, 1, s.len())
    } else {
        s
    };
    assert(s@.len() > 1 && s@[0] == 43 ==> d@ =~= s@.drop_first());
    if d.len() == 0 {
        return None;
    }
    let mut acc: u64 = 0;
    let mut over = false;
    let mut i: usize = 0;
    while i < d.len()
        invariant
            0 <= i <= d@.len(),
            d@ == (if s@.len() > 1 && s@[0] == 43 {
                s@.drop_first()
            } else {
                s@
            }),
            d@.len() > 0,
            all_hex(d@.subrange(0, i as int)),
            !over ==> acc == hex_value(d@.subrange(0, i as int)) && acc <= u32::MAX,
            over ==> hex_value(d@.subrange(0, i as int)) > u32::MAX,
        decreases d.len() - i,
    {
        let b = d[i];
        assert(d@.subrange(0, i + 1).drop_last() =~= d@.subrange(0, i as int));
        let v: u64 = if 48 <= b && b <= 57 {
            (b - 48) as u64
        } else if 97 <= b && b <= 102 {
            (b - 87) as u64
        } else if 65 <= b && b <= 70 {
            (b - 55) as u64
        } else {
            assert(hex_digit(d@[i as int]) < 0);
            return None;
        };
        if !over {
            let next = acc * 16 + v;
            if next > 0xFFFF_FFFF {
                over = true;
            } else {
                acc = next;
            }
        }
        i = i + 1;
        assert(all_hex(d@.subrange(0, i as int)));
    }
    assert(d@.subrange(0, i as int) =~= d@);
    if over {
        None
    } else {
        Some(acc as u32)
    }
}

fn parse_dec_u32(s: &[u8]) -> (r: Option<u32>)
    ensures
        r == dec_u32(s@),
{
    if s.len() == 0 {
        return Some(0);
    }
    match parse_digits(s, 0xFFFF_FFFF) {
        Some(v) => Some(v as u32),
        None => None,
    }
}

/// The first `;` at or after `e` within ten bytes of `start`.
pub open spec fn semi_in(s: Seq<u8>, start: int, e: int) -> Option<int>
    decreases s.len() - e,
{
    if e < 0 || e >= s.len() || e - start >= 10 {
        None
    } else if s[e] == 59 {
        Some(e)
    } else {
        semi_in(s, start, e + 1)
    }
}

proof fn lemma_semi_in(s: Seq<u8>, start: int, e: int)
    requires
        0 <= e,
    ensures
        semi_in(s, start, e) matches Some(x) ==> e <= x < s.len() && s[x] == 59,
    decreases s.len() - e,
{
    if e < s.len() && e - start < 10 && s[e] != 59 {
        lemma_semi_in(s, start, e + 1);
    }
}

/// The text of a numeric character reference (`#` already removed).
pub open spec fn numeric_text(num: Seq<u8>) -> Seq<u8> {
    let code = if num.len() > 0 && (num[0] == 120 || num[0] == 88) {
        hex_u32(num.drop_first())
    } else {
        dec_u32(num)
    };
    match code {
        Some(c) => if is_scalar(c) {
            utf8_enc(c)
        } else {
            seq![63u8]
        },
        None => seq![63u8],
    }
}

/// The text a character reference `&name;` stands for.
pub open spec fn entity_text(name: Seq<u8>) -> Seq<u8> {
    if !vstd::utf8::valid_utf8(name) {
        seq![38u8, 59u8]
    } else if name == lit("amp") {
        seq![38u8]
    } else if name == lit("lt") {
        seq![60u8]
    } else if name == lit("gt") {
        seq![62u8]
    } else if name == lit("quot") {
        seq![34u8]
    } else if name == lit("apos") {
        seq![39u8]
    } else if name == lit("nbsp") {
        seq![32u8]
    } else if name.len() > 0 && name[0] == 35 {
        numeric_text(name.drop_first())
    } else {
        seq![38u8] + name + seq![59u8]
    }
}

/// The reference that starts with the `&` at `i`: its text and the index of
/// its last byte (a lone `&` stands for itself).
pub open spec fn entity_at(s: Seq<u8>, i: int) -> (Seq<u8>, int) {
    match semi_in(s, i + 1, i + 1) {
        Some(e) => (entity_text(s.subrange(i + 1, e)), e),
        None => (seq![38u8], i),
    }
}

fn is_name(t: &[u8], name: &str) -> (r: bool)
    requires
        name.is_ascii(),
    ensures
        r == (t@ == lit(name)),
{
    let n = ascii_bytes(name);
    crate::text::bytes_eq(t, n.as_slice())
}

fn entity_text_exec(name: &[u8]) -> (r: Vec<u8>)
    ensures
        r@ == entity_text(name@),
{
    proof {
        reveal_strlit("amp");
        reveal_strlit("apos");
        reveal_strlit("gt");
        reveal_strlit("lt");
        reveal_strlit("nbsp");
        reveal_strlit("quot");
    }
    if !crate::text::is_utf8(name) {
        return vec![38u8, 59u8];
    }
    if is_name(name, "amp") {
        vec![38u8]
    } else if is_name(name, "lt") {
        vec![60u8]
    } else if is_name(name, "gt") {
        vec![62u8]
    } else if is_name(name, "quot") {
        vec![34u8]
    } else if is_name(name, "apos") {
        vec![39u8]
    } else if is_name(name, "nbsp") {
        vec![32u8]
    } else if name.len() > 0 && name[0] == 35 {
        let num = vstd::slice::slice_subrange(name, 1, name.len());
        assert(num@ =~= name@.drop_first());
        let code = if num.len() > 0 && (num[0] == 120 || num[0] == 88) {
            let hx = vstd::slice::slice_subrange(num, 1, num.len());
            assert(hx@ =~= num@.drop_first());
            parse_hex_u32(hx)
        } else {
            parse_dec_u32(num)
        };
        let mut out: Vec<u8> = Vec::new();
        match code {
            Some(c) => if c <= 0x10FFFF && !(0xD800 <= c && c <= 0xDFFF) {
                push_utf8(&mut out, c);
            } else {
                out.push(63);
            },
            None => out.push(63),
        }
        assert(out@ =~= numeric_text(num@));
        out
    } else {
        let mut out: Vec<u8> = vec![38u8];
        push_all(&mut out, name);
        out.push(59);
        assert(out@ =~= seq![38u8] + name@ + seq![59u8]);
        out
    }
}

fn entity_at_exec(s: &[u8], i: usize) -> (r: (Vec<u8>, usize))
    requires
        i < s@.len(),
    ensures
        (r.0@, r.1 as int) == entity_at(s@, i as int),
        i <= r.1 < s@.len(),
{
    let n = s.len();
    let start = i + 1;
    let mut e = start;
    proof {
        lemma_semi_in(s@, start as int, start as int);
    }
    while e < s.len() && e - start < 10
        invariant
            start <= e,
            start == i + 1,
            i < s@.len(),
            semi_in(s@, start as int, start as int) == semi_in(s@, start as int, e as int),
        decreases s@.len() - e,
    {
        if s[e] == 59 {
            let name = vstd::slice::slice_subrange(s, start, e);
            return (entity_text_exec(name), e);
        }
        e = e + 1;
    }
    (vec![38u8], i)
}

// ---------------------------------------------------------------------
// Markup scanning
// ---------------------------------------------------------------------

/// What closing a tag does to the scan.
pub enum TagEffect {
    ScriptOn,
    ScriptOff,
    StyleOn,
    StyleOff,
    Switch(ChunkType),
    Break,
    Nothing,
}

/// Tags after which text is a paragraph again.
pub open spec fn paragraph_tag(t: Seq<u8>) -> bool {
    ||| t == lit("/title") || t == lit("/h1") || t == lit("/h2") || t == lit("/h3")
    ||| t == lit("/h4") || t == lit("/h5") || t == lit("/h6")
    ||| t == lit("/pre") || t == lit("/code") || t == lit("/li") || t == lit("/table")
    ||| t == lit("p") || t == lit("/p") || t == lit("div") || t == lit("/div")
    ||| t == lit("section") || t == lit("/section") || t == lit("article") || t == lit("/article")
    ||| t == lit("header") || t == lit("/header") || t == lit("footer") || t == lit("/footer")
    ||| t == lit("nav") || t == lit("/nav") || t == lit("main") || t == lit("/main")
}

/// The effect of a tag, by its lower-cased name.
pub open spec fn tag_effect(t: Seq<u8>) -> TagEffect {
    if t == lit("script") {
        TagEffect::ScriptOn
    } else if t == lit("/script") {
        TagEffect::ScriptOff
    } else if t == lit("style") {
        TagEffect::StyleOn
    } else if t == lit("/style") {
        TagEffect::StyleOff
    } else if t == lit("title") {
        TagEffect::Switch(ChunkType::Title)
    } else if t == lit("h1") {
        TagEffect::Switch(ChunkType::Heading { level: 1 })
    } else if t == lit("h2") {
        TagEffect::Switch(ChunkType::Heading { level: 2 })
    } else if t == lit("h3") {
        TagEffect::Switch(ChunkType::Heading { level: 3 })
    } else if t == lit("h4") || t == lit("h5") || t == lit("h6") {
        TagEffect::Switch(ChunkType::Heading { level: 4 })
    } else if t == lit("pre") || t == lit("code") {
        TagEffect::Switch(ChunkType::Code)
    } else if t == lit("li") {
        TagEffect::Switch(ChunkType::ListItem)
    } else if t == lit("table") {
        TagEffect::Switch(ChunkType::Table)
    } else if t == lit("br") || t == lit("br/") {
        TagEffect::Break
    } else if paragraph_tag(t) {
        TagEffect::Switch(ChunkType::Paragraph)
    } else {
        TagEffect::Nothing
    }
}

fn is_paragraph_tag(t: &[u8]) -> (r: bool)
    ensures
        r == paragraph_tag(t@),
{
    proof {
        reveal_strlit("/article");
        reveal_strlit("/code");
        reveal_strlit("/div");
        reveal_strlit("/footer");
        reveal_strlit("/h1");
        reveal_strlit("/h2");
        reveal_strlit("/h3");
        reveal_strlit("/h4");
        reveal_strlit("/h5");
        reveal_strlit("/h6");
        reveal_strlit("/header");
        reveal_strlit("/li");
        reveal_strlit("/main");
        reveal_strlit("/nav");
        reveal_strlit("/p");
        reveal_strlit("/pre");
        reveal_strlit("/section");
        reveal_strlit("/table");
        reveal_strlit("/title");
        reveal_strlit("article");
        reveal_strlit("div");
        reveal_strlit("footer");
        reveal_strlit("header");
        reveal_strlit("main");
        reveal_strlit("nav");
        reveal_strlit("p");
        reveal_strlit("section");
    }
    is_name(t, "/title") || is_name(t, "/h1") || is_name(t, "/h2") || is_name(t, "/h3") || is_name(t, "/h4")
        || is_name(t, "/h5") || is_name(t, "/h6") || is_name(t, "/pre") || is_name(t, "/code") || is_name(
        t,
        "/li",
    ) || is_name(t, "/table") || is_name(t, "p") || is_name(t, "/p") || is_name(t, "div") || is_name(t, "/div")
        || is_name(t, "section") || is_name(t, "/section") || is_name(t, "article") || is_name(t, "/article")
        || is_name(t, "header") || is_name(t, "/header") || is_name(t, "footer") || is_name(t, "/footer")
        || is_name(t, "nav") || is_name(t, "/nav") || is_name(t, "main") || is_name(t, "/main")
}

fn tag_effect_exec(t: &[u8]) -> (r: TagEffect)
    ensures
        r == tag_effect(t@),
{
    proof {
        reveal_strlit("/script");
        reveal_strlit("/style");
        reveal_strlit("br");
        reveal_strlit("br/");
        reveal_strlit("code");
        reveal_strlit("h1");
        reveal_strlit("h2");
        reveal_strlit("h3");
        reveal_strlit("h4");
        reveal_strlit("h5");
        reveal_strlit("h6");
        reveal_strlit("li");
        reveal_strlit("pre");
        reveal_strlit("script");
        reveal_strlit("style");
        reveal_strlit("table");
        reveal_strlit("title");
    }
    if is_name(t, "script") {
        TagEffect::ScriptOn
    } else if is_name(t, "/script") {
        TagEffect::ScriptOff
    } else if is_name(t, "style") {
        TagEffect::StyleOn
    } else if is_name(t, "/style") {
        TagEffect::StyleOff
    } else if is_name(t, "title") {
        TagEffect::Switch(ChunkType::Title)
    } else if is_name(t, "h1") {
        TagEffect::Switch(ChunkType::Heading { level: 1 })
    } else if is_name(t, "h2") {
        TagEffect::Switch(ChunkType::Heading { level: 2 })
    } else if is_name(t, "h3") {
        TagEffect::Switch(ChunkType::Heading { level: 3 })
    } else if is_name(t, "h4") || is_name(t, "h5") || is_name(t, "h6") {
        TagEffect::Switch(ChunkType::Heading { level: 4 })
    } else if is_name(t, "pre") || is_name(t, "code") {
        TagEffect::Switch(ChunkType::Code)
    } else if is_name(t, "li") {
        TagEffect::Switch(ChunkType::ListItem)
    } else if is_name(t, "table") {
        TagEffect::Switch(ChunkType::Table)
    } else if is_name(t, "br") || is_name(t, "br/") {
        TagEffect::Break
    } else if is_paragraph_tag(t) {
        TagEffect::Switch(ChunkType::Paragraph)
    } else {
        TagEffect::Nothing
    }
}

/// The state of the markup scan.
#[verifier::ext_equal]
pub struct ScanModel {
    pub chunks: Seq<ChunkModel>,
    pub text: Seq<u8>,
    pub typ: ChunkType,
    pub in_tag: bool,
    pub collecting: bool,
    pub tag: Seq<u8>,
    pub in_script: bool,
    pub in_style: bool,
}

/// The chunks after the pending text is closed off (dropped when blank).
pub open spec fn flushed(chunks: Seq<ChunkModel>, text: Seq<u8>, typ: ChunkType) -> Seq<ChunkModel> {
    let t = utrim(text);
    if t.len() == 0 {
        chunks
    } else {
        chunks.push(ChunkModel { typ, text: t, tokens: token_estimate(t.len()) })
    }
}

/// The scan after the `>` that closes a tag.
pub open spec fn close_tag(st: ScanModel) -> ScanModel {
    let base = ScanModel { in_tag: false, collecting: false, tag: seq![], ..st };
    match tag_effect(lower_seq(st.tag)) {
        TagEffect::ScriptOn => ScanModel { in_script: true, ..base },
        TagEffect::ScriptOff => ScanModel { in_script: false, ..base },
        TagEffect::StyleOn => ScanModel { in_style: true, ..base },
        TagEffect::StyleOff => ScanModel { in_style: false, ..base },
        TagEffect::Switch(t) => ScanModel { chunks: flushed(st.chunks, st.text, st.typ), text: seq![], typ: t, ..base },
        TagEffect::Break => ScanModel { text: st.text.push(10u8), ..base },
        TagEffect::Nothing => base,
    }
}

/// One step of the scan at byte `i`: the new state and the index of the
/// last byte it consumed.
pub open spec fn scan_step(s: Seq<u8>, i: int, st: ScanModel) -> (ScanModel, int) {
    let b = s[i];
    if st.in_tag {
        if b == 62 {
            (close_tag(st), i)
        } else if st.collecting {
            if b == 32 || b == 9 || b == 10 || b == 13 {
                (ScanModel { collecting: false, ..st }, i)
            } else {
                (ScanModel { tag: st.tag.push(b), ..st }, i)
            }
        } else {
            (st, i)
        }
    } else if b == 60 {
        (ScanModel { in_tag: true, collecting: true, tag: seq![], ..st }, i)
    } else if b == 38 {
        let (e, j) = entity_at(s, i);
        (
            if st.in_script || st.in_style {
                st
            } else {
                ScanModel { text: st.text + e, ..st }
            },
            j,
        )
    } else if st.in_script || st.in_style {
        (st, i)
    } else if b == 10 || b == 13 || b == 9 {
        (
            if st.text.len() > 0 && st.text.last() == 32 {
                st
            } else {
                ScanModel { text: st.text.push(32u8), ..st }
            },
            i,
        )
    } else {
        (ScanModel { text: st.text + utf8_enc(b as u32), ..st }, i)
    }
}

/// The scan from byte `i` to the end.
pub open spec fn scan(s: Seq<u8>, i: int, st: ScanModel) -> ScanModel
    decreases s.len() - i,
{
    if i < 0 || i >= s.len() {
        st
    } else {
        let (st2, j) = scan_step(s, i, st);
        if j < i || j >= s.len() {
            st2
        } else {
            scan(s, j + 1, st2)
        }
    }
}

/// The scan state at the start of a page.
pub open spec fn scan_start() -> ScanModel {
    ScanModel {
        chunks: seq![],
        text: seq![],
        typ: ChunkType::Paragraph,
        in_tag: false,
        collecting: false,
        tag: seq![],
        in_script: false,
        in_style: false,
    }
}

/// The chunks of a page's markup.
pub open spec fn html_chunks(s: Seq<u8>) -> Seq<ChunkModel> {
    let st = scan(s, 0, scan_start());
    flushed(st.chunks, st.text, st.typ)
}

/// Whether every chunk has text, and its token count is the estimate for
/// that text.
pub open spec fn chunks_ok(cs: Seq<ChunkModel>) -> bool {
    forall|k: int| 0 <= k < cs.len() ==> (#[trigger] cs[k]).text.len() > 0 && cs[k].tokens == token_estimate(cs[k].text.len())
}

proof fn lemma_flushed_ok(cs: Seq<ChunkModel>, text: Seq<u8>, typ: ChunkType)
    requires
        chunks_ok(cs),
    ensures
        chunks_ok(flushed(cs, text, typ)),
{
    let r = flushed(cs, text, typ);
    assert forall|k: int| 0 <= k < r.len() implies (#[trigger] r[k]).text.len() > 0 && r[k].tokens == token_estimate(r[k].text.len()) by {
        if k < cs.len() {
            assert(r[k] == cs[k]);
        }
    }
}

proof fn lemma_scan_ok(s: Seq<u8>, i: int, st: ScanModel)
    requires
        chunks_ok(st.chunks),
    ensures
        chunks_ok(scan(s, i, st).chunks),
    decreases s.len() - i,
{
    if 0 <= i < s.len() {
        let (st2, j) = scan_step(s, i, st);
        if st.in_tag && s[i] == 62 {
            lemma_flushed_ok(st.chunks, st.text, st.typ);
        }
        assert(chunks_ok(st2.chunks));
        if j >= i && j < s.len() {
            lemma_scan_ok(s, j + 1, st2);
        }
    }
}

/// Every chunk of a page has text, and its token count is the estimate
/// for that text.
pub proof fn lemma_chunks_have_text(html: Seq<u8>)
    ensures
        chunks_ok(html_chunks(html)),
{
    assert(chunks_ok(scan_start().chunks));
    lemma_scan_ok(html, 0, scan_start());
    let st = scan(html, 0, scan_start());
    lemma_flushed_ok(st.chunks, st.text, st.typ);
}

/// No byte of `s` is `b`.
pub open spec fn lacks_byte(s: Seq<u8>, b: u8) -> bool {
    forall|k: int| 0 <= k < s.len() ==> #[trigger] s[k] != b
}

/// No chunk's text holds `<`.
pub open spec fn chunks_lack_lt(cs: Seq<ChunkModel>) -> bool {
    forall|k: int| 0 <= k < cs.len() ==> lacks_byte(#[trigger] cs[k].text, 60)
}

proof fn lemma_flushed_lacks_lt(cs: Seq<ChunkModel>, text: Seq<u8>, typ: ChunkType)
    requires
        chunks_lack_lt(cs),
        lacks_byte(text, 60),
    ensures
        chunks_lack_lt(flushed(cs, text, typ)),
{
    let a = wskip(text, 0);
    lemma_wskip(text, 0);
    lemma_wrskip(text, a, text.len() as int);
    let t = utrim(text);
    assert forall|k: int| 0 <= k < t.len() implies #[trigger] t[k] != 60 by {
        assert(t[k] == text[a + k]);
    }
    let r = flushed(cs, text, typ);
    assert forall|k: int| 0 <= k < r.len() implies lacks_byte(#[trigger] r[k].text, 60) by {
        if k < cs.len() {
            assert(r[k] == cs[k]);
        }
    }
}

proof fn lemma_scan_lacks_lt(s: Seq<u8>, i: int, st: ScanModel)
    requires
        lacks_byte(s, 38),
        lacks_byte(st.text, 60),
        chunks_lack_lt(st.chunks),
    ensures
        chunks_lack_lt(scan(s, i, st).chunks),
        lacks_byte(scan(s, i, st).text, 60),
    decreases s.len() - i,
{
    if 0 <= i < s.len() {
        let b = s[i];
        let (st2, j) = scan_step(s, i, st);
        if st.in_tag {
            if b == 62 {
                lemma_flushed_lacks_lt(st.chunks, st.text, st.typ);
                assert forall|k: int| 0 <= k < st.text.push(10u8).len() implies #[trigger] st.text.push(10u8)[k] != 60 by {
                    if k < st.text.len() {
                        assert(st.text.push(10u8)[k] == st.text[k]);
                    }
                }
            }
        } else if b == 60 {
        } else if b == 38 {
            assert(s[i] != 38);
        } else if st.in_script || st.in_style {
        } else if b == 10 || b == 13 || b == 9 {
            assert forall|k: int| 0 <= k < st.text.push(32u8).len() implies #[trigger] st.text.push(32u8)[k] != 60 by {
                if k < st.text.len() {
                    assert(st.text.push(32u8)[k] == st.text[k]);
                }
            }
        } else {
            let e = utf8_enc(b as u32);
            assert forall|k: int| 0 <= k < e.len() implies #[trigger] e[k] != 60 by {}
            let t = st.text + e;
            assert forall|k: int| 0 <= k < t.len() implies #[trigger] t[k] != 60 by {
                if k < st.text.len() {
                    assert(t[k] == st.text[k]);
                } else {
                    assert(t[k] == e[k - st.text.len()]);
                }
            }
        }
        assert(chunks_lack_lt(st2.chunks) && lacks_byte(st2.text, 60));
        if j >= i && j < s.len() {
            lemma_scan_lacks_lt(s, j + 1, st2);
        }
    }
}

/// Text is read only outside tags: a page without character references
/// gives chunks that hold no `<`.
pub proof fn lemma_no_markup_in_chunks(html: Seq<u8>)
    requires
        lacks_byte(html, 38),
    ensures
        chunks_lack_lt(html_chunks(html)),
{
    lemma_scan_lacks_lt(html, 0, scan_start());
    let st = scan(html, 0, scan_start());
    lemma_flushed_lacks_lt(st.chunks, st.text, st.typ);
}

proof fn lemma_scan_collect(s: Seq<u8>, i: int, name: Seq<u8>, k: int, st: ScanModel)
    requires
        0 <= i,
        0 <= k <= name.len(),
        i + name.len() + 2 <= s.len(),
        s.subrange(i + 1, i + 1 + name.len()) == name,
        s[i + 1 + name.len()] == 62,
        forall|m: int| 0 <= m < name.len() ==> #[trigger] name[m] != 62 && name[m] != 32 && name[m] != 9 && name[m] != 10 && name[m] != 13,
        st.in_tag,
        st.collecting,
        st.tag == name.subrange(0, k),
    ensures
        scan(s, i + 1 + k, st) == scan(s, i + name.len() + 2, close_tag(ScanModel { tag: name, ..st })),
    decreases name.len() - k,
{
    let p = i + 1 + k;
    if k == name.len() {
        assert(name.subrange(0, k) =~= name);
        assert(ScanModel { tag: name, ..st } == st);
    } else {
        let b = s[p];
        assert(b == name[k]);
        let st2 = ScanModel { tag: st.tag.push(b), ..st };
        assert(st2.tag =~= name.subrange(0, k + 1));
        lemma_scan_collect(s, i, name, k + 1, st2);
        assert(ScanModel { tag: name, ..st2 } == ScanModel { tag: name, ..st });
    }
}

/// Reading a tag `<name>` from outside a tag closes it with its name.
proof fn lemma_scan_tag(s: Seq<u8>, i: int, name: Seq<u8>, st: ScanModel)
    requires
        0 <= i,
        i + name.len() + 2 <= s.len(),
        s[i] == 60,
        s.subrange(i + 1, i + 1 + name.len()) == name,
        s[i + 1 + name.len()] == 62,
        forall|m: int| 0 <= m < name.len() ==> #[trigger] name[m] != 62 && name[m] != 32 && name[m] != 9 && name[m] != 10 && name[m] != 13,
        !st.in_tag,
    ensures
        scan(s, i, st) == scan(
            s,
            i + name.len() + 2,
            close_tag(ScanModel { in_tag: true, collecting: true, tag: name, ..st }),
        ),
{
    let st1 = ScanModel { in_tag: true, collecting: true, tag: seq![], ..st };
    assert(st1.tag =~= name.subrange(0, 0));
    lemma_scan_collect(s, i, name, 0, st1);
    assert(ScanModel { tag: name, ..st1 } == ScanModel { in_tag: true, collecting: true, tag: name, ..st });
}

proof fn lemma_scan_script_body(s: Seq<u8>, i: int, e: int, st: ScanModel)
    requires
        0 <= i <= e <= s.len(),
        st.in_script || st.in_style,
        !st.in_tag,
        forall|k: int| i <= k < e ==> #[trigger] s[k] != 60 && s[k] != 38,
    ensures
        scan(s, i, st) == scan(s, e, st),
    decreases e - i,
{
    if i < e {
        lemma_scan_script_body(s, i + 1, e, st);
    }
}

/// Script contents are dropped: a page that is one script element, whose
/// body holds no `<` and no character reference, gives no chunk.
pub proof fn lemma_script_dropped(body: Seq<u8>)
    requires
        lacks_byte(body, 60),
        lacks_byte(body, 38),
    ensures
        html_chunks(lit("<script>") + body + lit("</script>")) == Seq::<ChunkModel>::empty(),
{
    reveal_strlit("<script>");
    reveal_strlit("</script>");
    reveal_strlit("script");
    reveal_strlit("/script");
    let s = lit("<script>") + body + lit("</script>");
    let n = body.len() as int;
    let open = lit("script");
    let close = lit("/script");
    assert(s.subrange(1, 7) =~= open);
    assert(s[0] == 60 && s[7] == 62);
    let st0 = scan_start();
    lemma_scan_tag(s, 0, open, st0);
    assert(lower_seq(open) =~= open);
    let st1 = close_tag(ScanModel { in_tag: true, collecting: true, tag: open, ..st0 });
    assert(st1.in_script && !st1.in_tag);
    assert forall|k: int| 8 <= k < 8 + n implies #[trigger] s[k] != 60 && s[k] != 38 by {
        assert(s[k] == body[k - 8]);
    }
    lemma_scan_script_body(s, 8, 8 + n, st1);
    assert(s.subrange(9 + n, 16 + n) =~= close);
    assert(s[8 + n] == 60 && s[16 + n] == 62);
    lemma_scan_tag(s, 8 + n, close, st1);
    assert(lower_seq(close) =~= close);
    let st2 = close_tag(ScanModel { in_tag: true, collecting: true, tag: close, ..st1 });
    assert(st2.chunks == Seq::<ChunkModel>::empty() && st2.text == Seq::<u8>::empty());
    assert(scan(s, 17 + n, st2) == st2);
    assert(utrim(Seq::<u8>::empty()) =~= Seq::<u8>::empty());
}

/// Style contents are dropped: a page that is one style element, whose
/// body holds no `<` and no character reference, gives no chunk.
pub proof fn lemma_style_dropped(body: Seq<u8>)
    requires
        lacks_byte(body, 60),
        lacks_byte(body, 38),
    ensures
        html_chunks(lit("<style>") + body + lit("</style>")) == Seq::<ChunkModel>::empty(),
{
    reveal_strlit("script");
    reveal_strlit("/script");
    assert(lit("script").len() == 6 && lit("/script").len() == 7);
    reveal_strlit("<style>");
    reveal_strlit("</style>");
    reveal_strlit("style");
    reveal_strlit("/style");
    let s = lit("<style>") + body + lit("</style>");
    let n = body.len() as int;
    let open = lit("style");
    let close = lit("/style");
    assert(s.subrange(1, 6) =~= open);
    assert(s[0] == 60 && s[6] == 62);
    let st0 = scan_start();
    lemma_scan_tag(s, 0, open, st0);
    assert(lower_seq(open) =~= open);
    let st1 = close_tag(ScanModel { in_tag: true, collecting: true, tag: open, ..st0 });
    assert(st1.in_style && !st1.in_tag);
    assert forall|k: int| 7 <= k < 7 + n implies #[trigger] s[k] != 60 && s[k] != 38 by {
        assert(s[k] == body[k - 7]);
    }
    lemma_scan_script_body(s, 7, 7 + n, st1);
    assert(s.subrange(8 + n, 14 + n) =~= close);
    assert(s[7 + n] == 60 && s[14 + n] == 62);
    lemma_scan_tag(s, 7 + n, close, st1);
    assert(lower_seq(close) =~= close);
    let st2 = close_tag(ScanModel { in_tag: true, collecting: true, tag: close, ..st1 });
    assert(st2.chunks == Seq::<ChunkModel>::empty() && st2.text == Seq::<u8>::empty());
    assert(scan(s, 15 + n, st2) == st2);
    assert(utrim(Seq::<u8>::empty()) =~= Seq::<u8>::empty());
}

proof fn lemma_scan_plain(s: Seq<u8>, i: int, e: int, st: ScanModel)
    requires
        0 <= i <= e <= s.len(),
        !st.in_tag,
        !st.in_script,
        !st.in_style,
        forall|k: int| i <= k < e ==> 32 <= #[trigger] s[k] <= 126 && s[k] != 60 && s[k] != 38,
    ensures
        scan(s, i, st) == scan(s, e, ScanModel { text: st.text + s.subrange(i, e), ..st }),
    decreases e - i,
{
    if i < e {
        let b = s[i];
        let st2 = ScanModel { text: st.text + seq![b], ..st };
        assert(utf8_enc(b as u32) == seq![b]);
        assert(scan_step(s, i, st) == (st2, i));
        lemma_scan_plain(s, i + 1, e, st2);
        assert(st2.text + s.subrange(i + 1, e) =~= st.text + s.subrange(i, e));
        assert(ScanModel { text: st2.text + s.subrange(i + 1, e), ..st2 } == ScanModel { text: st.text + s.subrange(i, e), ..st });
    } else {
        assert(st.text + s.subrange(i, e) =~= st.text);
        assert(ScanModel { text: st.text + s.subrange(i, e), ..st } == st);
    }
}

/// The one chunk of kind `typ` made of text `x`.
pub open spec fn lone_chunk(typ: ChunkType, x: Seq<u8>) -> Seq<ChunkModel> {
    seq![ChunkModel { typ, text: utrim(x), tokens: token_estimate(utrim(x).len()) }]
}

/// Printable text with no markup or character reference that is not blank.
pub open spec fn plain_text(x: Seq<u8>) -> bool {
    &&& forall|k: int| 0 <= k < x.len() ==> 32 <= #[trigger] x[k] <= 126 && x[k] != 60 && x[k] != 38
    &&& utrim(x).len() > 0
}

proof fn lemma_tagged(open: Seq<u8>, close: Seq<u8>, typ: ChunkType, closing: ChunkType, x: Seq<u8>)
    requires
        plain_text(x),
        forall|m: int| 0 <= m < open.len() ==> #[trigger] open[m] != 62 && open[m] != 32 && open[m] != 9 && open[m] != 10 && open[m] != 13,
        forall|m: int| 0 <= m < close.len() ==> #[trigger] close[m] != 62 && close[m] != 32 && close[m] != 9 && close[m] != 10 && close[m] != 13,
        tag_effect(lower_seq(open)) == TagEffect::Switch(typ),
        tag_effect(lower_seq(close)) == TagEffect::Switch(closing),
    ensures
        html_chunks(seq![60u8] + open + seq![62u8] + x + seq![60u8] + close + seq![62u8]) == lone_chunk(typ, x),
{
    let s = seq![60u8] + open + seq![62u8] + x + seq![60u8] + close + seq![62u8];
    let o = open.len() as int;
    let n = x.len() as int;
    let c = close.len() as int;
    assert(s.subrange(1, 1 + o) =~= open);
    assert(s[0] == 60 && s[1 + o] == 62);
    let st0 = scan_start();
    lemma_scan_tag(s, 0, open, st0);
    let st1 = close_tag(ScanModel { in_tag: true, collecting: true, tag: open, ..st0 });
    assert(utrim(Seq::<u8>::empty()) =~= Seq::<u8>::empty());
    assert(st1.chunks == Seq::<ChunkModel>::empty() && st1.text == Seq::<u8>::empty() && st1.typ == typ);
    assert(!st1.in_tag && !st1.in_script && !st1.in_style);
    assert forall|k: int| o + 2 <= k < o + 2 + n implies 32 <= #[trigger] s[k] <= 126 && s[k] != 60 && s[k] != 38 by {
        assert(s[k] == x[k - o - 2]);
    }
    lemma_scan_plain(s, o + 2, o + 2 + n, st1);
    let st2 = ScanModel { text: st1.text + s.subrange(o + 2, o + 2 + n), ..st1 };
    assert(s.subrange(o + 2, o + 2 + n) =~= x);
    assert(st1.text + x =~= x);
    assert(s.subrange(o + 3 + n, o + 3 + n + c) =~= close);
    assert(s[o + 2 + n] == 60 && s[o + 3 + n + c] == 62);
    lemma_scan_tag(s, o + 2 + n, close, st2);
    let st3 = close_tag(ScanModel { in_tag: true, collecting: true, tag: close, ..st2 });
    assert(st3.chunks == lone_chunk(typ, x));
    assert(scan(s, o + 4 + n + c, st3) == st3);
    assert(st3.text == Seq::<u8>::empty());
}

#[verifier::spinoff_prover]
proof fn lemma_tag_title(x: Seq<u8>)
    requires
        plain_text(x),
    ensures
        html_chunks(lit("<title>") + x + lit("</title>")) == lone_chunk(ChunkType::Title, x),
{
    reveal_strlit("script");
    assert(lit("script").len() == 6 && lit("script")[0] == 115u8 && lit("script")[1] == 99u8 && lit("script")[2] == 114u8 && lit("script")[3] == 105u8 && lit("script")[4] == 112u8 && lit("script")[5] == 116u8);
    reveal_strlit("/script");
    assert(lit("/script").len() == 7 && lit("/script")[0] == 47u8 && lit("/script")[1] == 115u8 && lit("/script")[2] == 99u8 && lit("/script")[3] == 114u8 && lit("/script")[4] == 105u8 && lit("/script")[5] == 112u8 && lit("/script")[6] == 116u8);
    reveal_strlit("style");
    assert(lit("style").len() == 5 && lit("style")[0] == 115u8 && lit("style")[1] == 116u8 && lit("style")[2] == 121u8 && lit("style")[3] == 108u8 && lit("style")[4] == 101u8);
    reveal_strlit("/style");
    assert(lit("/style").len() == 6 && lit("/style")[0] == 47u8 && lit("/style")[1] == 115u8 && lit("/style")[2] == 116u8 && lit("/style")[3] == 121u8 && lit("/style")[4] == 108u8 && lit("/style")[5] == 101u8);
    reveal_strlit("title");
    assert(lit("title").len() == 5 && lit("title")[0] == 116u8 && lit("title")[1] == 105u8 && lit("title")[2] == 116u8 && lit("title")[3] == 108u8 && lit("title")[4] == 101u8);
    reveal_strlit("h1");
    assert(lit("h1").len() == 2 && lit("h1")[0] == 104u8 && lit("h1")[1] == 49u8);
    reveal_strlit("h2");
    assert(lit("h2").len() == 2 && lit("h2")[0] == 104u8 && lit("h2")[1] == 50u8);
    reveal_strlit("h3");
    assert(lit("h3").len() == 2 && lit("h3")[0] == 104u8 && lit("h3")[1] == 51u8);
    reveal_strlit("h4");
    assert(lit("h4").len() == 2 && lit("h4")[0] == 104u8 && lit("h4")[1] == 52u8);
    reveal_strlit("h5");
    assert(lit("h5").len() == 2 && lit("h5")[0] == 104u8 && lit("h5")[1] == 53u8);
    reveal_strlit("h6");
    assert(lit("h6").len() == 2 && lit("h6")[0] == 104u8 && lit("h6")[1] == 54u8);
    reveal_strlit("pre");
    assert(lit("pre").len() == 3 && lit("pre")[0] == 112u8 && lit("pre")[1] == 114u8 && lit("pre")[2] == 101u8);
    reveal_strlit("code");
    assert(lit("code").len() == 4 && lit("code")[0] == 99u8 && lit("code")[1] == 111u8 && lit("code")[2] == 100u8 && lit("code")[3] == 101u8);
    reveal_strlit("li");
    assert(lit("li").len() == 2 && lit("li")[0] == 108u8 && lit("li")[1] == 105u8);
    reveal_strlit("table");
    assert(lit("table").len() == 5 && lit("table")[0] == 116u8 && lit("table")[1] == 97u8 && lit("table")[2] == 98u8 && lit("table")[3] == 108u8 && lit("table")[4] == 101u8);
    reveal_strlit("br");
    assert(lit("br").len() == 2 && lit("br")[0] == 98u8 && lit("br")[1] == 114u8);
    reveal_strlit("br/");
    assert(lit("br/").len() == 3 && lit("br/")[0] == 98u8 && lit("br/")[1] == 114u8 && lit("br/")[2] == 47u8);
    reveal_strlit("/title");
    assert(lit("/title").len() == 6 && lit("/title")[0] == 47u8 && lit("/title")[1] == 116u8 && lit("/title")[2] == 105u8 && lit("/title")[3] == 116u8 && lit("/title")[4] == 108u8 && lit("/title")[5] == 101u8);
    reveal_strlit("/h1");
    assert(lit("/h1").len() == 3 && lit("/h1")[0] == 47u8 && lit("/h1")[1] == 104u8 && lit("/h1")[2] == 49u8);
    reveal_strlit("/h2");
    assert(lit("/h2").len() == 3 && lit("/h2")[0] == 47u8 && lit("/h2")[1] == 104u8 && lit("/h2")[2] == 50u8);
    reveal_strlit("/h3");
    assert(lit("/h3").len() == 3 && lit("/h3")[0] == 47u8 && lit("/h3")[1] == 104u8 && lit("/h3")[2] == 51u8);
    reveal_strlit("/h4");
    assert(lit("/h4").len() == 3 && lit("/h4")[0] == 47u8 && lit("/h4")[1] == 104u8 && lit("/h4")[2] == 52u8);
    reveal_strlit("/h5");
    assert(lit("/h5").len() == 3 && lit("/h5")[0] == 47u8 && lit("/h5")[1] == 104u8 && lit("/h5")[2] == 53u8);
    reveal_strlit("/h6");
    assert(lit("/h6").len() == 3 && lit("/h6")[0] == 47u8 && lit("/h6")[1] == 104u8 && lit("/h6")[2] == 54u8);
    reveal_strlit("/pre");
    assert(lit("/pre").len() == 4 && lit("/pre")[0] == 47u8 && lit("/pre")[1] == 112u8 && lit("/pre")[2] == 114u8 && lit("/pre")[3] == 101u8);
    reveal_strlit("/code");
    assert(lit("/code").len() == 5 && lit("/code")[0] == 47u8 && lit("/code")[1] == 99u8 && lit("/code")[2] == 111u8 && lit("/code")[3] == 100u8 && lit("/code")[4] == 101u8);
    reveal_strlit("/li");
    assert(lit("/li").len() == 3 && lit("/li")[0] == 47u8 && lit("/li")[1] == 108u8 && lit("/li")[2] == 105u8);
    reveal_strlit("/table");
    assert(lit("/table").len() == 6 && lit("/table")[0] == 47u8 && lit("/table")[1] == 116u8 && lit("/table")[2] == 97u8 && lit("/table")[3] == 98u8 && lit("/table")[4] == 108u8 && lit("/table")[5] == 101u8);
    reveal_strlit("<title>");
    reveal_strlit("</title>");
    assert(lower_seq(lit("title")) =~= lit("title"));
    assert(lower_seq(lit("/title")) =~= lit("/title"));
    assert(tag_effect(lit("title")) == TagEffect::Switch(ChunkType::Title));
    assert(tag_effect(lit("/title")) == TagEffect::Switch(ChunkType::Paragraph));
    lemma_tagged(lit("title"), lit("/title"), ChunkType::Title, ChunkType::Paragraph, x);
    assert(lit("<title>") + x + lit("</title>") =~= seq![60u8] + lit("title") + seq![62u8] + x + seq![60u8] + lit("/title") + seq![62u8]);
}

#[verifier::spinoff_prover]
proof fn lemma_tag_h1(x: Seq<u8>)
    requires
        plain_text(x),
    ensures
        html_chunks(lit("<h1>") + x + lit("</h1>")) == lone_chunk(ChunkType::Heading { level: 1 }, x),
{
    reveal_strlit("script");
    assert(lit("script").len() == 6 && lit("script")[0] == 115u8 && lit("script")[1] == 99u8 && lit("script")[2] == 114u8 && lit("script")[3] == 105u8 && lit("script")[4] == 112u8 && lit("script")[5] == 116u8);
    reveal_strlit("/script");
    assert(lit("/script").len() == 7 && lit("/script")[0] == 47u8 && lit("/script")[1] == 115u8 && lit("/script")[2] == 99u8 && lit("/script")[3] == 114u8 && lit("/script")[4] == 105u8 && lit("/script")[5] == 112u8 && lit("/script")[6] == 116u8);
    reveal_strlit("style");
    assert(lit("style").len() == 5 && lit("style")[0] == 115u8 && lit("style")[1] == 116u8 && lit("style")[2] == 121u8 && lit("style")[3] == 108u8 && lit("style")[4] == 101u8);
    reveal_strlit("/style");
    assert(lit("/style").len() == 6 && lit("/style")[0] == 47u8 && lit("/style")[1] == 115u8 && lit("/style")[2] == 116u8 && lit("/style")[3] == 121u8 && lit("/style")[4] == 108u8 && lit("/style")[5] == 101u8);
    reveal_strlit("title");
    assert(lit("title").len() == 5 && lit("title")[0] == 116u8 && lit("title")[1] == 105u8 && lit("title")[2] == 116u8 && lit("title")[3] == 108u8 && lit("title")[4] == 101u8);
    reveal_strlit("h1");
    assert(lit("h1").len() == 2 && lit("h1")[0] == 104u8 && lit("h1")[1] == 49u8);
    reveal_strlit("h2");
    assert(lit("h2").len() == 2 && lit("h2")[0] == 104u8 && lit("h2")[1] == 50u8);
    reveal_strlit("h3");
    assert(lit("h3").len() == 2 && lit("h3")[0] == 104u8 && lit("h3")[1] == 51u8);
    reveal_strlit("h4");
    assert(lit("h4").len() == 2 && lit("h4")[0] == 104u8 && lit("h4")[1] == 52u8);
    reveal_strlit("h5");
    assert(lit("h5").len() == 2 && lit("h5")[0] == 104u8 && lit("h5")[1] == 53u8);
    reveal_strlit("h6");
    assert(lit("h6").len() == 2 && lit("h6")[0] == 104u8 && lit("h6")[1] == 54u8);
    reveal_strlit("pre");
    assert(lit("pre").len() == 3 && lit("pre")[0] == 112u8 && lit("pre")[1] == 114u8 && lit("pre")[2] == 101u8);
    reveal_strlit("code");
    assert(lit("code").len() == 4 && lit("code")[0] == 99u8 && lit("code")[1] == 111u8 && lit("code")[2] == 100u8 && lit("code")[3] == 101u8);
    reveal_strlit("li");
    assert(lit("li").len() == 2 && lit("li")[0] == 108u8 && lit("li")[1] == 105u8);
    reveal_strlit("table");
    assert(lit("table").len() == 5 && lit("table")[0] == 116u8 && lit("table")[1] == 97u8 && lit("table")[2] == 98u8 && lit("table")[3] == 108u8 && lit("table")[4] == 101u8);
    reveal_strlit("br");
    assert(lit("br").len() == 2 && lit("br")[0] == 98u8 && lit("br")[1] == 114u8);
    reveal_strlit("br/");
    assert(lit("br/").len() == 3 && lit("br/")[0] == 98u8 && lit("br/")[1] == 114u8 && lit("br/")[2] == 47u8);
    reveal_strlit("/title");
    assert(lit("/title").len() == 6 && lit("/title")[0] == 47u8 && lit("/title")[1] == 116u8 && lit("/title")[2] == 105u8 && lit("/title")[3] == 116u8 && lit("/title")[4] == 108u8 && lit("/title")[5] == 101u8);
    reveal_strlit("/h1");
    assert(lit("/h1").len() == 3 && lit("/h1")[0] == 47u8 && lit("/h1")[1] == 104u8 && lit("/h1")[2] == 49u8);
    reveal_strlit("/h2");
    assert(lit("/h2").len() == 3 && lit("/h2")[0] == 47u8 && lit("/h2")[1] == 104u8 && lit("/h2")[2] == 50u8);
    reveal_strlit("/h3");
    assert(lit("/h3").len() == 3 && lit("/h3")[0] == 47u8 && lit("/h3")[1] == 104u8 && lit("/h3")[2] == 51u8);
    reveal_strlit("/h4");
    assert(lit("/h4").len() == 3 && lit("/h4")[0] == 47u8 && lit("/h4")[1] == 104u8 && lit("/h4")[2] == 52u8);
    reveal_strlit("/h5");
    assert(lit("/h5").len() == 3 && lit("/h5")[0] == 47u8 && lit("/h5")[1] == 104u8 && lit("/h5")[2] == 53u8);
    reveal_strlit("/h6");
    assert(lit("/h6").len() == 3 && lit("/h6")[0] == 47u8 && lit("/h6")[1] == 104u8 && lit("/h6")[2] == 54u8);
    reveal_strlit("/pre");
    assert(lit("/pre").len() == 4 && lit("/pre")[0] == 47u8 && lit("/pre")[1] == 112u8 && lit("/pre")[2] == 114u8 && lit("/pre")[3] == 101u8);
    reveal_strlit("/code");
    assert(lit("/code").len() == 5 && lit("/code")[0] == 47u8 && lit("/code")[1] == 99u8 && lit("/code")[2] == 111u8 && lit("/code")[3] == 100u8 && lit("/code")[4] == 101u8);
    reveal_strlit("/li");
    assert(lit("/li").len() == 3 && lit("/li")[0] == 47u8 && lit("/li")[1] == 108u8 && lit("/li")[2] == 105u8);
    reveal_strlit("/table");
    assert(lit("/table").len() == 6 && lit("/table")[0] == 47u8 && lit("/table")[1] == 116u8 && lit("/table")[2] == 97u8 && lit("/table")[3] == 98u8 && lit("/table")[4] == 108u8 && lit("/table")[5] == 101u8);
    reveal_strlit("<h1>");
    reveal_strlit("</h1>");
    assert(lower_seq(lit("h1")) =~= lit("h1"));
    assert(lower_seq(lit("/h1")) =~= lit("/h1"));
    assert(tag_effect(lit("h1")) == TagEffect::Switch(ChunkType::Heading { level: 1 }));
    assert(tag_effect(lit("/h1")) == TagEffect::Switch(ChunkType::Paragraph));
    lemma_tagged(lit("h1"), lit("/h1"), ChunkType::Heading { level: 1 }, ChunkType::Paragraph, x);
    assert(lit("<h1>") + x + lit("</h1>") =~= seq![60u8] + lit("h1") + seq![62u8] + x + seq![60u8] + lit("/h1") + seq![62u8]);
}

#[verifier::spinoff_prover]
proof fn lemma_tag_h2(x: Seq<u8>)
    requires
        plain_text(x),
    ensures
        html_chunks(lit("<h2>") + x + lit("</h2>")) == lone_chunk(ChunkType::Heading { level: 2 }, x),
{
    reveal_strlit("script");
    assert(lit("script").len() == 6 && lit("script")[0] == 115u8 && lit("script")[1] == 99u8 && lit("script")[2] == 114u8 && lit("script")[3] == 105u8 && lit("script")[4] == 112u8 && lit("script")[5] == 116u8);
    reveal_strlit("/script");
    assert(lit("/script").len() == 7 && lit("/script")[0] == 47u8 && lit("/script")[1] == 115u8 && lit("/script")[2] == 99u8 && lit("/script")[3] == 114u8 && lit("/script")[4] == 105u8 && lit("/script")[5] == 112u8 && lit("/script")[6] == 116u8);
    reveal_strlit("style");
    assert(lit("style").len() == 5 && lit("style")[0] == 115u8 && lit("style")[1] == 116u8 && lit("style")[2] == 121u8 && lit("style")[3] == 108u8 && lit("style")[4] == 101u8);
    reveal_strlit("/style");
    assert(lit("/style").len() == 6 && lit("/style")[0] == 47u8 && lit("/style")[1] == 115u8 && lit("/style")[2] == 116u8 && lit("/style")[3] == 121u8 && lit("/style")[4] == 108u8 && lit("/style")[5] == 101u8);
    reveal_strlit("title");
    assert(lit("title").len() == 5 && lit("title")[0] == 116u8 && lit("title")[1] == 105u8 && lit("title")[2] == 116u8 && lit("title")[3] == 108u8 && lit("title")[4] == 101u8);
    reveal_strlit("h1");
    assert(lit("h1").len() == 2 && lit("h1")[0] == 104u8 && lit("h1")[1] == 49u8);
    reveal_strlit("h2");
    assert(lit("h2").len() == 2 && lit("h2")[0] == 104u8 && lit("h2")[1] == 50u8);
    reveal_strlit("h3");
    assert(lit("h3").len() == 2 && lit("h3")[0] == 104u8 && lit("h3")[1] == 51u8);
    reveal_strlit("h4");
    assert(lit("h4").len() == 2 && lit("h4")[0] == 104u8 && lit("h4")[1] == 52u8);
    reveal_strlit("h5");
    assert(lit("h5").len() == 2 && lit("h5")[0] == 104u8 && lit("h5")[1] == 53u8);
    reveal_strlit("h6");
    assert(lit("h6").len() == 2 && lit("h6")[0] == 104u8 && lit("h6")[1] == 54u8);
    reveal_strlit("pre");
    assert(lit("pre").len() == 3 && lit("pre")[0] == 112u8 && lit("pre")[1] == 114u8 && lit("pre")[2] == 101u8);
    reveal_strlit("code");
    assert(lit("code").len() == 4 && lit("code")[0] == 99u8 && lit("code")[1] == 111u8 && lit("code")[2] == 100u8 && lit("code")[3] == 101u8);
    reveal_strlit("li");
    assert(lit("li").len() == 2 && lit("li")[0] == 108u8 && lit("li")[1] == 105u8);
    reveal_strlit("table");
    assert(lit("table").len() == 5 && lit("table")[0] == 116u8 && lit("table")[1] == 97u8 && lit("table")[2] == 98u8 && lit("table")[3] == 108u8 && lit("table")[4] == 101u8);
    reveal_strlit("br");
    assert(lit("br").len() == 2 && lit("br")[0] == 98u8 && lit("br")[1] == 114u8);
    reveal_strlit("br/");
    assert(lit("br/").len() == 3 && lit("br/")[0] == 98u8 && lit("br/")[1] == 114u8 && lit("br/")[2] == 47u8);
    reveal_strlit("/title");
    assert(lit("/title").len() == 6 && lit("/title")[0] == 47u8 && lit("/title")[1] == 116u8 && lit("/title")[2] == 105u8 && lit("/title")[3] == 116u8 && lit("/title")[4] == 108u8 && lit("/title")[5] == 101u8);
    reveal_strlit("/h1");
    assert(lit("/h1").len() == 3 && lit("/h1")[0] == 47u8 && lit("/h1")[1] == 104u8 && lit("/h1")[2] == 49u8);
    reveal_strlit("/h2");
    assert(lit("/h2").len() == 3 && lit("/h2")[0] == 47u8 && lit("/h2")[1] == 104u8 && lit("/h2")[2] == 50u8);
    reveal_strlit("/h3");
    assert(lit("/h3").len() == 3 && lit("/h3")[0] == 47u8 && lit("/h3")[1] == 104u8 && lit("/h3")[2] == 51u8);
    reveal_strlit("/h4");
    assert(lit("/h4").len() == 3 && lit("/h4")[0] == 47u8 && lit("/h4")[1] == 104u8 && lit("/h4")[2] == 52u8);
    reveal_strlit("/h5");
    assert(lit("/h5").len() == 3 && lit("/h5")[0] == 47u8 && lit("/h5")[1] == 104u8 && lit("/h5")[2] == 53u8);
    reveal_strlit("/h6");
    assert(lit("/h6").len() == 3 && lit("/h6")[0] == 47u8 && lit("/h6")[1] == 104u8 && lit("/h6")[2] == 54u8);
    reveal_strlit("/pre");
    assert(lit("/pre").len() == 4 && lit("/pre")[0] == 47u8 && lit("/pre")[1] == 112u8 && lit("/pre")[2] == 114u8 && lit("/pre")[3] == 101u8);
    reveal_strlit("/code");
    assert(lit("/code").len() == 5 && lit("/code")[0] == 47u8 && lit("/code")[1] == 99u8 && lit("/code")[2] == 111u8 && lit("/code")[3] == 100u8 && lit("/code")[4] == 101u8);
    reveal_strlit("/li");
    assert(lit("/li").len() == 3 && lit("/li")[0] == 47u8 && lit("/li")[1] == 108u8 && lit("/li")[2] == 105u8);
    reveal_strlit("/table");
    assert(lit("/table").len() == 6 && lit("/table")[0] == 47u8 && lit("/table")[1] == 116u8 && lit("/table")[2] == 97u8 && lit("/table")[3] == 98u8 && lit("/table")[4] == 108u8 && lit("/table")[5] == 101u8);
    reveal_strlit("<h2>");
    reveal_strlit("</h2>");
    assert(lower_seq(lit("h2")) =~= lit("h2"));
    assert(lower_seq(lit("/h2")) =~= lit("/h2"));
    assert(tag_effect(lit("h2")) == TagEffect::Switch(ChunkType::Heading { level: 2 }));
    assert(tag_effect(lit("/h2")) == TagEffect::Switch(ChunkType::Paragraph));
    lemma_tagged(lit("h2"), lit("/h2"), ChunkType::Heading { level: 2 }, ChunkType::Paragraph, x);
    assert(lit("<h2>") + x + lit("</h2>") =~= seq![60u8] + lit("h2") + seq![62u8] + x + seq![60u8] + lit("/h2") + seq![62u8]);
}

#[verifier::spinoff_prover]
proof fn lemma_tag_h3(x: Seq<u8>)
    requires
        plain_text(x),
    ensures
        html_chunks(lit("<h3>") + x + lit("</h3>")) == lone_chunk(ChunkType::Heading { level: 3 }, x),
{
    reveal_strlit("script");
    assert(lit("script").len() == 6 && lit("script")[0] == 115u8 && lit("script")[1] == 99u8 && lit("script")[2] == 114u8 && lit("script")[3] == 105u8 && lit("script")[4] == 112u8 && lit("script")[5] == 116u8);
    reveal_strlit("/script");
    assert(lit("/script").len() == 7 && lit("/script")[0] == 47u8 && lit("/script")[1] == 115u8 && lit("/script")[2] == 99u8 && lit("/script")[3] == 114u8 && lit("/script")[4] == 105u8 && lit("/script")[5] == 112u8 && lit("/script")[6] == 116u8);
    reveal_strlit("style");
    assert(lit("style").len() == 5 && lit("style")[0] == 115u8 && lit("style")[1] == 116u8 && lit("style")[2] == 121u8 && lit("style")[3] == 108u8 && lit("style")[4] == 101u8);
    reveal_strlit("/style");
    assert(lit("/style").len() == 6 && lit("/style")[0] == 47u8 && lit("/style")[1] == 115u8 && lit("/style")[2] == 116u8 && lit("/style")[3] == 121u8 && lit("/style")[4] == 108u8 && lit("/style")[5] == 101u8);
    reveal_strlit("title");
    assert(lit("title").len() == 5 && lit("title")[0] == 116u8 && lit("title")[1] == 105u8 && lit("title")[2] == 116u8 && lit("title")[3] == 108u8 && lit("title")[4] == 101u8);
    reveal_strlit("h1");
    assert(lit("h1").len() == 2 && lit("h1")[0] == 104u8 && lit("h1")[1] == 49u8);
    reveal_strlit("h2");
    assert(lit("h2").len() == 2 && lit("h2")[0] == 104u8 && lit("h2")[1] == 50u8);
    reveal_strlit("h3");
    assert(lit("h3").len() == 2 && lit("h3")[0] == 104u8 && lit("h3")[1] == 51u8);
    reveal_strlit("h4");
    assert(lit("h4").len() == 2 && lit("h4")[0] == 104u8 && lit("h4")[1] == 52u8);
    reveal_strlit("h5");
    assert(lit("h5").len() == 2 && lit("h5")[0] == 104u8 && lit("h5")[1] == 53u8);
    reveal_strlit("h6");
    assert(lit("h6").len() == 2 && lit("h6")[0] == 104u8 && lit("h6")[1] == 54u8);
    reveal_strlit("pre");
    assert(lit("pre").len() == 3 && lit("pre")[0] == 112u8 && lit("pre")[1] == 114u8 && lit("pre")[2] == 101u8);
    reveal_strlit("code");
    assert(lit("code").len() == 4 && lit("code")[0] == 99u8 && lit("code")[1] == 111u8 && lit("code")[2] == 100u8 && lit("code")[3] == 101u8);
    reveal_strlit("li");
    assert(lit("li").len() == 2 && lit("li")[0] == 108u8 && lit("li")[1] == 105u8);
    reveal_strlit("table");
    assert(lit("table").len() == 5 && lit("table")[0] == 116u8 && lit("table")[1] == 97u8 && lit("table")[2] == 98u8 && lit("table")[3] == 108u8 && lit("table")[4] == 101u8);
    reveal_strlit("br");
    assert(lit("br").len() == 2 && lit("br")[0] == 98u8 && lit("br")[1] == 114u8);
    reveal_strlit("br/");
    assert(lit("br/").len() == 3 && lit("br/")[0] == 98u8 && lit("br/")[1] == 114u8 && lit("br/")[2] == 47u8);
    reveal_strlit("/title");
    assert(lit("/title").len() == 6 && lit("/title")[0] == 47u8 && lit("/title")[1] == 116u8 && lit("/title")[2] == 105u8 && lit("/title")[3] == 116u8 && lit("/title")[4] == 108u8 && lit("/title")[5] == 101u8);
    reveal_strlit("/h1");
    assert(lit("/h1").len() == 3 && lit("/h1")[0] == 47u8 && lit("/h1")[1] == 104u8 && lit("/h1")[2] == 49u8);
    reveal_strlit("/h2");
    assert(lit("/h2").len() == 3 && lit("/h2")[0] == 47u8 && lit("/h2")[1] == 104u8 && lit("/h2")[2] == 50u8);
    reveal_strlit("/h3");
    assert(lit("/h3").len() == 3 && lit("/h3")[0] == 47u8 && lit("/h3")[1] == 104u8 && lit("/h3")[2] == 51u8);
    reveal_strlit("/h4");
    assert(lit("/h4").len() == 3 && lit("/h4")[0] == 47u8 && lit("/h4")[1] == 104u8 && lit("/h4")[2] == 52u8);
    reveal_strlit("/h5");
    assert(lit("/h5").len() == 3 && lit("/h5")[0] == 47u8 && lit("/h5")[1] == 104u8 && lit("/h5")[2] == 53u8);
    reveal_strlit("/h6");
    assert(lit("/h6").len() == 3 && lit("/h6")[0] == 47u8 && lit("/h6")[1] == 104u8 && lit("/h6")[2] == 54u8);
    reveal_strlit("/pre");
    assert(lit("/pre").len() == 4 && lit("/pre")[0] == 47u8 && lit("/pre")[1] == 112u8 && lit("/pre")[2] == 114u8 && lit("/pre")[3] == 101u8);
    reveal_strlit("/code");
    assert(lit("/code").len() == 5 && lit("/code")[0] == 47u8 && lit("/code")[1] == 99u8 && lit("/code")[2] == 111u8 && lit("/code")[3] == 100u8 && lit("/code")[4] == 101u8);
    reveal_strlit("/li");
    assert(lit("/li").len() == 3 && lit("/li")[0] == 47u8 && lit("/li")[1] == 108u8 && lit("/li")[2] == 105u8);
    reveal_strlit("/table");
    assert(lit("/table").len() == 6 && lit("/table")[0] == 47u8 && lit("/table")[1] == 116u8 && lit("/table")[2] == 97u8 && lit("/table")[3] == 98u8 && lit("/table")[4] == 108u8 && lit("/table")[5] == 101u8);
    reveal_strlit("<h3>");
    reveal_strlit("</h3>");
    assert(lower_seq(lit("h3")) =~= lit("h3"));
    assert(lower_seq(lit("/h3")) =~= lit("/h3"));
    assert(tag_effect(lit("h3")) == TagEffect::Switch(ChunkType::Heading { level: 3 }));
    assert(tag_effect(lit("/h3")) == TagEffect::Switch(ChunkType::Paragraph));
    lemma_tagged(lit("h3"), lit("/h3"), ChunkType::Heading { level: 3 }, ChunkType::Paragraph, x);
    assert(lit("<h3>") + x + lit("</h3>") =~= seq![60u8] + lit("h3") + seq![62u8] + x + seq![60u8] + lit("/h3") + seq![62u8]);
}

#[verifier::spinoff_prover]
proof fn lemma_tag_h4(x: Seq<u8>)
    requires
        plain_text(x),
    ensures
        html_chunks(lit("<h4>") + x + lit("</h4>")) == lone_chunk(ChunkType::Heading { level: 4 }, x),
{
    reveal_strlit("script");
    assert(lit("script").len() == 6 && lit("script")[0] == 115u8 && lit("script")[1] == 99u8 && lit("script")[2] == 114u8 && lit("script")[3] == 105u8 && lit("script")[4] == 112u8 && lit("script")[5] == 116u8);
    reveal_strlit("/script");
    assert(lit("/script").len() == 7 && lit("/script")[0] == 47u8 && lit("/script")[1] == 115u8 && lit("/script")[2] == 99u8 && lit("/script")[3] == 114u8 && lit("/script")[4] == 105u8 && lit("/script")[5] == 112u8 && lit("/script")[6] == 116u8);
    reveal_strlit("style");
    assert(lit("style").len() == 5 && lit("style")[0] == 115u8 && lit("style")[1] == 116u8 && lit("style")[2] == 121u8 && lit("style")[3] == 108u8 && lit("style")[4] == 101u8);
    reveal_strlit("/style");
    assert(lit("/style").len() == 6 && lit("/style")[0] == 47u8 && lit("/style")[1] == 115u8 && lit("/style")[2] == 116u8 && lit("/style")[3] == 121u8 && lit("/style")[4] == 108u8 && lit("/style")[5] == 101u8);
    reveal_strlit("title");
    assert(lit("title").len() == 5 && lit("title")[0] == 116u8 && lit("title")[1] == 105u8 && lit("title")[2] == 116u8 && lit("title")[3] == 108u8 && lit("title")[4] == 101u8);
    reveal_strlit("h1");
    assert(lit("h1").len() == 2 && lit("h1")[0] == 104u8 && lit("h1")[1] == 49u8);
    reveal_strlit("h2");
    assert(lit("h2").len() == 2 && lit("h2")[0] == 104u8 && lit("h2")[1] == 50u8);
    reveal_strlit("h3");
    assert(lit("h3").len() == 2 && lit("h3")[0] == 104u8 && lit("h3")[1] == 51u8);
    reveal_strlit("h4");
    assert(lit("h4").len() == 2 && lit("h4")[0] == 104u8 && lit("h4")[1] == 52u8);
    reveal_strlit("h5");
    assert(lit("h5").len() == 2 && lit("h5")[0] == 104u8 && lit("h5")[1] == 53u8);
    reveal_strlit("h6");
    assert(lit("h6").len() == 2 && lit("h6")[0] == 104u8 && lit("h6")[1] == 54u8);
    reveal_strlit("pre");
    assert(lit("pre").len() == 3 && lit("pre")[0] == 112u8 && lit("pre")[1] == 114u8 && lit("pre")[2] == 101u8);
    reveal_strlit("code");
    assert(lit("code").len() == 4 && lit("code")[0] == 99u8 && lit("code")[1] == 111u8 && lit("code")[2] == 100u8 && lit("code")[3] == 101u8);
    reveal_strlit("li");
    assert(lit("li").len() == 2 && lit("li")[0] == 108u8 && lit("li")[1] == 105u8);
    reveal_strlit("table");
    assert(lit("table").len() == 5 && lit("table")[0] == 116u8 && lit("table")[1] == 97u8 && lit("table")[2] == 98u8 && lit("table")[3] == 108u8 && lit("table")[4] == 101u8);
    reveal_strlit("br");
    assert(lit("br").len() == 2 && lit("br")[0] == 98u8 && lit("br")[1] == 114u8);
    reveal_strlit("br/");
    assert(lit("br/").len() == 3 && lit("br/")[0] == 98u8 && lit("br/")[1] == 114u8 && lit("br/")[2] == 47u8);
    reveal_strlit("/title");
    assert(lit("/title").len() == 6 && lit("/title")[0] == 47u8 && lit("/title")[1] == 116u8 && lit("/title")[2] == 105u8 && lit("/title")[3] == 116u8 && lit("/title")[4] == 108u8 && lit("/title")[5] == 101u8);
    reveal_strlit("/h1");
    assert(lit("/h1").len() == 3 && lit("/h1")[0] == 47u8 && lit("/h1")[1] == 104u8 && lit("/h1")[2] == 49u8);
    reveal_strlit("/h2");
    assert(lit("/h2").len() == 3 && lit("/h2")[0] == 47u8 && lit("/h2")[1] == 104u8 && lit("/h2")[2] == 50u8);
    reveal_strlit("/h3");
    assert(lit("/h3").len() == 3 && lit("/h3")[0] == 47u8 && lit("/h3")[1] == 104u8 && lit("/h3")[2] == 51u8);
    reveal_strlit("/h4");
    assert(lit("/h4").len() == 3 && lit("/h4")[0] == 47u8 && lit("/h4")[1] == 104u8 && lit("/h4")[2] == 52u8);
    reveal_strlit("/h5");
    assert(lit("/h5").len() == 3 && lit("/h5")[0] == 47u8 && lit("/h5")[1] == 104u8 && lit("/h5")[2] == 53u8);
    reveal_strlit("/h6");
    assert(lit("/h6").len() == 3 && lit("/h6")[0] == 47u8 && lit("/h6")[1] == 104u8 && lit("/h6")[2] == 54u8);
    reveal_strlit("/pre");
    assert(lit("/pre").len() == 4 && lit("/pre")[0] == 47u8 && lit("/pre")[1] == 112u8 && lit("/pre")[2] == 114u8 && lit("/pre")[3] == 101u8);
    reveal_strlit("/code");
    assert(lit("/code").len() == 5 && lit("/code")[0] == 47u8 && lit("/code")[1] == 99u8 && lit("/code")[2] == 111u8 && lit("/code")[3] == 100u8 && lit("/code")[4] == 101u8);
    reveal_strlit("/li");
    assert(lit("/li").len() == 3 && lit("/li")[0] == 47u8 && lit("/li")[1] == 108u8 && lit("/li")[2] == 105u8);
    reveal_strlit("/table");
    assert(lit("/table").len() == 6 && lit("/table")[0] == 47u8 && lit("/table")[1] == 116u8 && lit("/table")[2] == 97u8 && lit("/table")[3] == 98u8 && lit("/table")[4] == 108u8 && lit("/table")[5] == 101u8);
    reveal_strlit("<h4>");
    reveal_strlit("</h4>");
    assert(lower_seq(lit("h4")) =~= lit("h4"));
    assert(lower_seq(lit("/h4")) =~= lit("/h4"));
    assert(tag_effect(lit("h4")) == TagEffect::Switch(ChunkType::Heading { level: 4 }));
    assert(tag_effect(lit("/h4")) == TagEffect::Switch(ChunkType::Paragraph));
    lemma_tagged(lit("h4"), lit("/h4"), ChunkType::Heading { level: 4 }, ChunkType::Paragraph, x);
    assert(lit("<h4>") + x + lit("</h4>") =~= seq![60u8] + lit("h4") + seq![62u8] + x + seq![60u8] + lit("/h4") + seq![62u8]);
}

#[verifier::spinoff_prover]
proof fn lemma_tag_h5(x: Seq<u8>)
    requires
        plain_text(x),
    ensures
        html_chunks(lit("<h5>") + x + lit("</h5>")) == lone_chunk(ChunkType::Heading { level: 4 }, x),
{
    reveal_strlit("h4");
    reveal_strlit("/h4");
    assert(lit("h4").len() == 2 && lit("h4")[0] == 104u8 && lit("h4")[1] == 52u8);
    assert(lit("/h4").len() == 3 && lit("/h4")[0] == 47u8 && lit("/h4")[1] == 104u8 && lit("/h4")[2] == 52u8);
    reveal_strlit("script");
    assert(lit("script").len() == 6 && lit("script")[0] == 115u8 && lit("script")[1] == 99u8 && lit("script")[2] == 114u8 && lit("script")[3] == 105u8 && lit("script")[4] == 112u8 && lit("script")[5] == 116u8);
    reveal_strlit("/script");
    assert(lit("/script").len() == 7 && lit("/script")[0] == 47u8 && lit("/script")[1] == 115u8 && lit("/script")[2] == 99u8 && lit("/script")[3] == 114u8 && lit("/script")[4] == 105u8 && lit("/script")[5] == 112u8 && lit("/script")[6] == 116u8);
    reveal_strlit("style");
    assert(lit("style").len() == 5 && lit("style")[0] == 115u8 && lit("style")[1] == 116u8 && lit("style")[2] == 121u8 && lit("style")[3] == 108u8 && lit("style")[4] == 101u8);
    reveal_strlit("/style");
    assert(lit("/style").len() == 6 && lit("/style")[0] == 47u8 && lit("/style")[1] == 115u8 && lit("/style")[2] == 116u8 && lit("/style")[3] == 121u8 && lit("/style")[4] == 108u8 && lit("/style")[5] == 101u8);
    reveal_strlit("title");
    assert(lit("title").len() == 5 && lit("title")[0] == 116u8 && lit("title")[1] == 105u8 && lit("title")[2] == 116u8 && lit("title")[3] == 108u8 && lit("title")[4] == 101u8);
    reveal_strlit("h1");
    assert(lit("h1").len() == 2 && lit("h1")[0] == 104u8 && lit("h1")[1] == 49u8);
    reveal_strlit("h2");
    assert(lit("h2").len() == 2 && lit("h2")[0] == 104u8 && lit("h2")[1] == 50u8);
    reveal_strlit("h3");
    assert(lit("h3").len() == 2 && lit("h3")[0] == 104u8 && lit("h3")[1] == 51u8);
    reveal_strlit("h5");
    reveal_strlit("h5");
    assert(lit("h5").len() == 2 && lit("h5")[0] == 104u8 && lit("h5")[1] == 53u8);
    reveal_strlit("h6");
    assert(lit("h6").len() == 2 && lit("h6")[0] == 104u8 && lit("h6")[1] == 54u8);
    reveal_strlit("pre");
    assert(lit("pre").len() == 3 && lit("pre")[0] == 112u8 && lit("pre")[1] == 114u8 && lit("pre")[2] == 101u8);
    reveal_strlit("code");
    assert(lit("code").len() == 4 && lit("code")[0] == 99u8 && lit("code")[1] == 111u8 && lit("code")[2] == 100u8 && lit("code")[3] == 101u8);
    reveal_strlit("li");
    assert(lit("li").len() == 2 && lit("li")[0] == 108u8 && lit("li")[1] == 105u8);
    reveal_strlit("table");
    assert(lit("table").len() == 5 && lit("table")[0] == 116u8 && lit("table")[1] == 97u8 && lit("table")[2] == 98u8 && lit("table")[3] == 108u8 && lit("table")[4] == 101u8);
    reveal_strlit("br");
    assert(lit("br").len() == 2 && lit("br")[0] == 98u8 && lit("br")[1] == 114u8);
    reveal_strlit("br/");
    assert(lit("br/").len() == 3 && lit("br/")[0] == 98u8 && lit("br/")[1] == 114u8 && lit("br/")[2] == 47u8);
    reveal_strlit("/title");
    assert(lit("/title").len() == 6 && lit("/title")[0] == 47u8 && lit("/title")[1] == 116u8 && lit("/title")[2] == 105u8 && lit("/title")[3] == 116u8 && lit("/title")[4] == 108u8 && lit("/title")[5] == 101u8);
    reveal_strlit("/h1");
    assert(lit("/h1").len() == 3 && lit("/h1")[0] == 47u8 && lit("/h1")[1] == 104u8 && lit("/h1")[2] == 49u8);
    reveal_strlit("/h2");
    assert(lit("/h2").len() == 3 && lit("/h2")[0] == 47u8 && lit("/h2")[1] == 104u8 && lit("/h2")[2] == 50u8);
    reveal_strlit("/h3");
    assert(lit("/h3").len() == 3 && lit("/h3")[0] == 47u8 && lit("/h3")[1] == 104u8 && lit("/h3")[2] == 51u8);
    reveal_strlit("/h5");
    reveal_strlit("/h5");
    assert(lit("/h5").len() == 3 && lit("/h5")[0] == 47u8 && lit("/h5")[1] == 104u8 && lit("/h5")[2] == 53u8);
    reveal_strlit("/h6");
    assert(lit("/h6").len() == 3 && lit("/h6")[0] == 47u8 && lit("/h6")[1] == 104u8 && lit("/h6")[2] == 54u8);
    reveal_strlit("/pre");
    assert(lit("/pre").len() == 4 && lit("/pre")[0] == 47u8 && lit("/pre")[1] == 112u8 && lit("/pre")[2] == 114u8 && lit("/pre")[3] == 101u8);
    reveal_strlit("/code");
    assert(lit("/code").len() == 5 && lit("/code")[0] == 47u8 && lit("/code")[1] == 99u8 && lit("/code")[2] == 111u8 && lit("/code")[3] == 100u8 && lit("/code")[4] == 101u8);
    reveal_strlit("/li");
    assert(lit("/li").len() == 3 && lit("/li")[0] == 47u8 && lit("/li")[1] == 108u8 && lit("/li")[2] == 105u8);
    reveal_strlit("/table");
    assert(lit("/table").len() == 6 && lit("/table")[0] == 47u8 && lit("/table")[1] == 116u8 && lit("/table")[2] == 97u8 && lit("/table")[3] == 98u8 && lit("/table")[4] == 108u8 && lit("/table")[5] == 101u8);
    reveal_strlit("<h5>");
    reveal_strlit("</h5>");
    assert(lower_seq(lit("h5")) =~= lit("h5"));
    assert(lower_seq(lit("/h5")) =~= lit("/h5"));
    assert(tag_effect(lit("h5")) == TagEffect::Switch(ChunkType::Heading { level: 4 }));
    assert(tag_effect(lit("/h5")) == TagEffect::Switch(ChunkType::Paragraph));
    lemma_tagged(lit("h5"), lit("/h5"), ChunkType::Heading { level: 4 }, ChunkType::Paragraph, x);
    assert(lit("<h5>") + x + lit("</h5>") =~= seq![60u8] + lit("h5") + seq![62u8] + x + seq![60u8] + lit("/h5") + seq![62u8]);
}

#[verifier::spinoff_prover]
proof fn lemma_tag_h6(x: Seq<u8>)
    requires
        plain_text(x),
    ensures
        html_chunks(lit("<h6>") + x + lit("</h6>")) == lone_chunk(ChunkType::Heading { level: 4 }, x),
{
    reveal_strlit("h4");
    reveal_strlit("/h4");
    assert(lit("h4").len() == 2 && lit("h4")[0] == 104u8 && lit("h4")[1] == 52u8);
    assert(lit("/h4").len() == 3 && lit("/h4")[0] == 47u8 && lit("/h4")[1] == 104u8 && lit("/h4")[2] == 52u8);
    reveal_strlit("script");
    assert(lit("script").len() == 6 && lit("script")[0] == 115u8 && lit("script")[1] == 99u8 && lit("script")[2] == 114u8 && lit("script")[3] == 105u8 && lit("script")[4] == 112u8 && lit("script")[5] == 116u8);
    reveal_strlit("/script");
    assert(lit("/script").len() == 7 && lit("/script")[0] == 47u8 && lit("/script")[1] == 115u8 && lit("/script")[2] == 99u8 && lit("/script")[3] == 114u8 && lit("/script")[4] == 105u8 && lit("/script")[5] == 112u8 && lit("/script")[6] == 116u8);
    reveal_strlit("style");
    assert(lit("style").len() == 5 && lit("style")[0] == 115u8 && lit("style")[1] == 116u8 && lit("style")[2] == 121u8 && lit("style")[3] == 108u8 && lit("style")[4] == 101u8);
    reveal_strlit("/style");
    assert(lit("/style").len() == 6 && lit("/style")[0] == 47u8 && lit("/style")[1] == 115u8 && lit("/style")[2] == 116u8 && lit("/style")[3] == 121u8 && lit("/style")[4] == 108u8 && lit("/style")[5] == 101u8);
    reveal_strlit("title");
    assert(lit("title").len() == 5 && lit("title")[0] == 116u8 && lit("title")[1] == 105u8 && lit("title")[2] == 116u8 && lit("title")[3] == 108u8 && lit("title")[4] == 101u8);
    reveal_strlit("h1");
    assert(lit("h1").len() == 2 && lit("h1")[0] == 104u8 && lit("h1")[1] == 49u8);
    reveal_strlit("h2");
    assert(lit("h2").len() == 2 && lit("h2")[0] == 104u8 && lit("h2")[1] == 50u8);
    reveal_strlit("h3");
    assert(lit("h3").len() == 2 && lit("h3")[0] == 104u8 && lit("h3")[1] == 51u8);
    reveal_strlit("h6");
    reveal_strlit("h5");
    assert(lit("h5").len() == 2 && lit("h5")[0] == 104u8 && lit("h5")[1] == 53u8);
    reveal_strlit("h6");
    assert(lit("h6").len() == 2 && lit("h6")[0] == 104u8 && lit("h6")[1] == 54u8);
    reveal_strlit("pre");
    assert(lit("pre").len() == 3 && lit("pre")[0] == 112u8 && lit("pre")[1] == 114u8 && lit("pre")[2] == 101u8);
    reveal_strlit("code");
    assert(lit("code").len() == 4 && lit("code")[0] == 99u8 && lit("code")[1] == 111u8 && lit("code")[2] == 100u8 && lit("code")[3] == 101u8);
    reveal_strlit("li");
    assert(lit("li").len() == 2 && lit("li")[0] == 108u8 && lit("li")[1] == 105u8);
    reveal_strlit("table");
    assert(lit("table").len() == 5 && lit("table")[0] == 116u8 && lit("table")[1] == 97u8 && lit("table")[2] == 98u8 && lit("table")[3] == 108u8 && lit("table")[4] == 101u8);
    reveal_strlit("br");
    assert(lit("br").len() == 2 && lit("br")[0] == 98u8 && lit("br")[1] == 114u8);
    reveal_strlit("br/");
    assert(lit("br/").len() == 3 && lit("br/")[0] == 98u8 && lit("br/")[1] == 114u8 && lit("br/")[2] == 47u8);
    reveal_strlit("/title");
    assert(lit("/title").len() == 6 && lit("/title")[0] == 47u8 && lit("/title")[1] == 116u8 && lit("/title")[2] == 105u8 && lit("/title")[3] == 116u8 && lit("/title")[4] == 108u8 && lit("/title")[5] == 101u8);
    reveal_strlit("/h1");
    assert(lit("/h1").len() == 3 && lit("/h1")[0] == 47u8 && lit("/h1")[1] == 104u8 && lit("/h1")[2] == 49u8);
    reveal_strlit("/h2");
    assert(lit("/h2").len() == 3 && lit("/h2")[0] == 47u8 && lit("/h2")[1] == 104u8 && lit("/h2")[2] == 50u8);
    reveal_strlit("/h3");
    assert(lit("/h3").len() == 3 && lit("/h3")[0] == 47u8 && lit("/h3")[1] == 104u8 && lit("/h3")[2] == 51u8);
    reveal_strlit("/h6");
    reveal_strlit("/h5");
    assert(lit("/h5").len() == 3 && lit("/h5")[0] == 47u8 && lit("/h5")[1] == 104u8 && lit("/h5")[2] == 53u8);
    reveal_strlit("/h6");
    assert(lit("/h6").len() == 3 && lit("/h6")[0] == 47u8 && lit("/h6")[1] == 104u8 && lit("/h6")[2] == 54u8);
    reveal_strlit("/pre");
    assert(lit("/pre").len() == 4 && lit("/pre")[0] == 47u8 && lit("/pre")[1] == 112u8 && lit("/pre")[2] == 114u8 && lit("/pre")[3] == 101u8);
    reveal_strlit("/code");
    assert(lit("/code").len() == 5 && lit("/code")[0] == 47u8 && lit("/code")[1] == 99u8 && lit("/code")[2] == 111u8 && lit("/code")[3] == 100u8 && lit("/code")[4] == 101u8);
    reveal_strlit("/li");
    assert(lit("/li").len() == 3 && lit("/li")[0] == 47u8 && lit("/li")[1] == 108u8 && lit("/li")[2] == 105u8);
    reveal_strlit("/table");
    assert(lit("/table").len() == 6 && lit("/table")[0] == 47u8 && lit("/table")[1] == 116u8 && lit("/table")[2] == 97u8 && lit("/table")[3] == 98u8 && lit("/table")[4] == 108u8 && lit("/table")[5] == 101u8);
    reveal_strlit("<h6>");
    reveal_strlit("</h6>");
    assert(lower_seq(lit("h6")) =~= lit("h6"));
    assert(lower_seq(lit("/h6")) =~= lit("/h6"));
    assert(tag_effect(lit("h6")) == TagEffect::Switch(ChunkType::Heading { level: 4 }));
    assert(tag_effect(lit("/h6")) == TagEffect::Switch(ChunkType::Paragraph));
    lemma_tagged(lit("h6"), lit("/h6"), ChunkType::Heading { level: 4 }, ChunkType::Paragraph, x);
    assert(lit("<h6>") + x + lit("</h6>") =~= seq![60u8] + lit("h6") + seq![62u8] + x + seq![60u8] + lit("/h6") + seq![62u8]);
}

#[verifier::spinoff_prover]
proof fn lemma_tag_pre(x: Seq<u8>)
    requires
        plain_text(x),
    ensures
        html_chunks(lit("<pre>") + x + lit("</pre>")) == lone_chunk(ChunkType::Code, x),
{
    reveal_strlit("script");
    assert(lit("script").len() == 6 && lit("script")[0] == 115u8 && lit("script")[1] == 99u8 && lit("script")[2] == 114u8 && lit("script")[3] == 105u8 && lit("script")[4] == 112u8 && lit("script")[5] == 116u8);
    reveal_strlit("/script");
    assert(lit("/script").len() == 7 && lit("/script")[0] == 47u8 && lit("/script")[1] == 115u8 && lit("/script")[2] == 99u8 && lit("/script")[3] == 114u8 && lit("/script")[4] == 105u8 && lit("/script")[5] == 112u8 && lit("/script")[6] == 116u8);
    reveal_strlit("style");
    assert(lit("style").len() == 5 && lit("style")[0] == 115u8 && lit("style")[1] == 116u8 && lit("style")[2] == 121u8 && lit("style")[3] == 108u8 && lit("style")[4] == 101u8);
    reveal_strlit("/style");
    assert(lit("/style").len() == 6 && lit("/style")[0] == 47u8 && lit("/style")[1] == 115u8 && lit("/style")[2] == 116u8 && lit("/style")[3] == 121u8 && lit("/style")[4] == 108u8 && lit("/style")[5] == 101u8);
    reveal_strlit("title");
    assert(lit("title").len() == 5 && lit("title")[0] == 116u8 && lit("title")[1] == 105u8 && lit("title")[2] == 116u8 && lit("title")[3] == 108u8 && lit("title")[4] == 101u8);
    reveal_strlit("h1");
    assert(lit("h1").len() == 2 && lit("h1")[0] == 104u8 && lit("h1")[1] == 49u8);
    reveal_strlit("h2");
    assert(lit("h2").len() == 2 && lit("h2")[0] == 104u8 && lit("h2")[1] == 50u8);
    reveal_strlit("h3");
    assert(lit("h3").len() == 2 && lit("h3")[0] == 104u8 && lit("h3")[1] == 51u8);
    reveal_strlit("h4");
    assert(lit("h4").len() == 2 && lit("h4")[0] == 104u8 && lit("h4")[1] == 52u8);
    reveal_strlit("h5");
    assert(lit("h5").len() == 2 && lit("h5")[0] == 104u8 && lit("h5")[1] == 53u8);
    reveal_strlit("h6");
    assert(lit("h6").len() == 2 && lit("h6")[0] == 104u8 && lit("h6")[1] == 54u8);
    reveal_strlit("pre");
    assert(lit("pre").len() == 3 && lit("pre")[0] == 112u8 && lit("pre")[1] == 114u8 && lit("pre")[2] == 101u8);
    reveal_strlit("code");
    assert(lit("code").len() == 4 && lit("code")[0] == 99u8 && lit("code")[1] == 111u8 && lit("code")[2] == 100u8 && lit("code")[3] == 101u8);
    reveal_strlit("li");
    assert(lit("li").len() == 2 && lit("li")[0] == 108u8 && lit("li")[1] == 105u8);
    reveal_strlit("table");
    assert(lit("table").len() == 5 && lit("table")[0] == 116u8 && lit("table")[1] == 97u8 && lit("table")[2] == 98u8 && lit("table")[3] == 108u8 && lit("table")[4] == 101u8);
    reveal_strlit("br");
    assert(lit("br").len() == 2 && lit("br")[0] == 98u8 && lit("br")[1] == 114u8);
    reveal_strlit("br/");
    assert(lit("br/").len() == 3 && lit("br/")[0] == 98u8 && lit("br/")[1] == 114u8 && lit("br/")[2] == 47u8);
    reveal_strlit("/title");
    assert(lit("/title").len() == 6 && lit("/title")[0] == 47u8 && lit("/title")[1] == 116u8 && lit("/title")[2] == 105u8 && lit("/title")[3] == 116u8 && lit("/title")[4] == 108u8 && lit("/title")[5] == 101u8);
    reveal_strlit("/h1");
    assert(lit("/h1").len() == 3 && lit("/h1")[0] == 47u8 && lit("/h1")[1] == 104u8 && lit("/h1")[2] == 49u8);
    reveal_strlit("/h2");
    assert(lit("/h2").len() == 3 && lit("/h2")[0] == 47u8 && lit("/h2")[1] == 104u8 && lit("/h2")[2] == 50u8);
    reveal_strlit("/h3");
    assert(lit("/h3").len() == 3 && lit("/h3")[0] == 47u8 && lit("/h3")[1] == 104u8 && lit("/h3")[2] == 51u8);
    reveal_strlit("/h4");
    assert(lit("/h4").len() == 3 && lit("/h4")[0] == 47u8 && lit("/h4")[1] == 104u8 && lit("/h4")[2] == 52u8);
    reveal_strlit("/h5");
    assert(lit("/h5").len() == 3 && lit("/h5")[0] == 47u8 && lit("/h5")[1] == 104u8 && lit("/h5")[2] == 53u8);
    reveal_strlit("/h6");
    assert(lit("/h6").len() == 3 && lit("/h6")[0] == 47u8 && lit("/h6")[1] == 104u8 && lit("/h6")[2] == 54u8);
    reveal_strlit("/pre");
    assert(lit("/pre").len() == 4 && lit("/pre")[0] == 47u8 && lit("/pre")[1] == 112u8 && lit("/pre")[2] == 114u8 && lit("/pre")[3] == 101u8);
    reveal_strlit("/code");
    assert(lit("/code").len() == 5 && lit("/code")[0] == 47u8 && lit("/code")[1] == 99u8 && lit("/code")[2] == 111u8 && lit("/code")[3] == 100u8 && lit("/code")[4] == 101u8);
    reveal_strlit("/li");
    assert(lit("/li").len() == 3 && lit("/li")[0] == 47u8 && lit("/li")[1] == 108u8 && lit("/li")[2] == 105u8);
    reveal_strlit("/table");
    assert(lit("/table").len() == 6 && lit("/table")[0] == 47u8 && lit("/table")[1] == 116u8 && lit("/table")[2] == 97u8 && lit("/table")[3] == 98u8 && lit("/table")[4] == 108u8 && lit("/table")[5] == 101u8);
    reveal_strlit("<pre>");
    reveal_strlit("</pre>");
    assert(lower_seq(lit("pre")) =~= lit("pre"));
    assert(lower_seq(lit("/pre")) =~= lit("/pre"));
    assert(tag_effect(lit("pre")) == TagEffect::Switch(ChunkType::Code));
    assert(tag_effect(lit("/pre")) == TagEffect::Switch(ChunkType::Paragraph));
    lemma_tagged(lit("pre"), lit("/pre"), ChunkType::Code, ChunkType::Paragraph, x);
    assert(lit("<pre>") + x + lit("</pre>") =~= seq![60u8] + lit("pre") + seq![62u8] + x + seq![60u8] + lit("/pre") + seq![62u8]);
}

#[verifier::spinoff_prover]
proof fn lemma_tag_code(x: Seq<u8>)
    requires
        plain_text(x),
    ensures
        html_chunks(lit("<code>") + x + lit("</code>")) == lone_chunk(ChunkType::Code, x),
{
    reveal_strlit("script");
    assert(lit("script").len() == 6 && lit("script")[0] == 115u8 && lit("script")[1] == 99u8 && lit("script")[2] == 114u8 && lit("script")[3] == 105u8 && lit("script")[4] == 112u8 && lit("script")[5] == 116u8);
    reveal_strlit("/script");
    assert(lit("/script").len() == 7 && lit("/script")[0] == 47u8 && lit("/script")[1] == 115u8 && lit("/script")[2] == 99u8 && lit("/script")[3] == 114u8 && lit("/script")[4] == 105u8 && lit("/script")[5] == 112u8 && lit("/script")[6] == 116u8);
    reveal_strlit("style");
    assert(lit("style").len() == 5 && lit("style")[0] == 115u8 && lit("style")[1] == 116u8 && lit("style")[2] == 121u8 && lit("style")[3] == 108u8 && lit("style")[4] == 101u8);
    reveal_strlit("/style");
    assert(lit("/style").len() == 6 && lit("/style")[0] == 47u8 && lit("/style")[1] == 115u8 && lit("/style")[2] == 116u8 && lit("/style")[3] == 121u8 && lit("/style")[4] == 108u8 && lit("/style")[5] == 101u8);
    reveal_strlit("title");
    assert(lit("title").len() == 5 && lit("title")[0] == 116u8 && lit("title")[1] == 105u8 && lit("title")[2] == 116u8 && lit("title")[3] == 108u8 && lit("title")[4] == 101u8);
    reveal_strlit("h1");
    assert(lit("h1").len() == 2 && lit("h1")[0] == 104u8 && lit("h1")[1] == 49u8);
    reveal_strlit("h2");
    assert(lit("h2").len() == 2 && lit("h2")[0] == 104u8 && lit("h2")[1] == 50u8);
    reveal_strlit("h3");
    assert(lit("h3").len() == 2 && lit("h3")[0] == 104u8 && lit("h3")[1] == 51u8);
    reveal_strlit("h4");
    assert(lit("h4").len() == 2 && lit("h4")[0] == 104u8 && lit("h4")[1] == 52u8);
    reveal_strlit("h5");
    assert(lit("h5").len() == 2 && lit("h5")[0] == 104u8 && lit("h5")[1] == 53u8);
    reveal_strlit("h6");
    assert(lit("h6").len() == 2 && lit("h6")[0] == 104u8 && lit("h6")[1] == 54u8);
    reveal_strlit("pre");
    assert(lit("pre").len() == 3 && lit("pre")[0] == 112u8 && lit("pre")[1] == 114u8 && lit("pre")[2] == 101u8);
    reveal_strlit("code");
    assert(lit("code").len() == 4 && lit("code")[0] == 99u8 && lit("code")[1] == 111u8 && lit("code")[2] == 100u8 && lit("code")[3] == 101u8);
    reveal_strlit("li");
    assert(lit("li").len() == 2 && lit("li")[0] == 108u8 && lit("li")[1] == 105u8);
    reveal_strlit("table");
    assert(lit("table").len() == 5 && lit("table")[0] == 116u8 && lit("table")[1] == 97u8 && lit("table")[2] == 98u8 && lit("table")[3] == 108u8 && lit("table")[4] == 101u8);
    reveal_strlit("br");
    assert(lit("br").len() == 2 && lit("br")[0] == 98u8 && lit("br")[1] == 114u8);
    reveal_strlit("br/");
    assert(lit("br/").len() == 3 && lit("br/")[0] == 98u8 && lit("br/")[1] == 114u8 && lit("br/")[2] == 47u8);
    reveal_strlit("/title");
    assert(lit("/title").len() == 6 && lit("/title")[0] == 47u8 && lit("/title")[1] == 116u8 && lit("/title")[2] == 105u8 && lit("/title")[3] == 116u8 && lit("/title")[4] == 108u8 && lit("/title")[5] == 101u8);
    reveal_strlit("/h1");
    assert(lit("/h1").len() == 3 && lit("/h1")[0] == 47u8 && lit("/h1")[1] == 104u8 && lit("/h1")[2] == 49u8);
    reveal_strlit("/h2");
    assert(lit("/h2").len() == 3 && lit("/h2")[0] == 47u8 && lit("/h2")[1] == 104u8 && lit("/h2")[2] == 50u8);
    reveal_strlit("/h3");
    assert(lit("/h3").len() == 3 && lit("/h3")[0] == 47u8 && lit("/h3")[1] == 104u8 && lit("/h3")[2] == 51u8);
    reveal_strlit("/h4");
    assert(lit("/h4").len() == 3 && lit("/h4")[0] == 47u8 && lit("/h4")[1] == 104u8 && lit("/h4")[2] == 52u8);
    reveal_strlit("/h5");
    assert(lit("/h5").len() == 3 && lit("/h5")[0] == 47u8 && lit("/h5")[1] == 104u8 && lit("/h5")[2] == 53u8);
    reveal_strlit("/h6");
    assert(lit("/h6").len() == 3 && lit("/h6")[0] == 47u8 && lit("/h6")[1] == 104u8 && lit("/h6")[2] == 54u8);
    reveal_strlit("/pre");
    assert(lit("/pre").len() == 4 && lit("/pre")[0] == 47u8 && lit("/pre")[1] == 112u8 && lit("/pre")[2] == 114u8 && lit("/pre")[3] == 101u8);
    reveal_strlit("/code");
    assert(lit("/code").len() == 5 && lit("/code")[0] == 47u8 && lit("/code")[1] == 99u8 && lit("/code")[2] == 111u8 && lit("/code")[3] == 100u8 && lit("/code")[4] == 101u8);
    reveal_strlit("/li");
    assert(lit("/li").len() == 3 && lit("/li")[0] == 47u8 && lit("/li")[1] == 108u8 && lit("/li")[2] == 105u8);
    reveal_strlit("/table");
    assert(lit("/table").len() == 6 && lit("/table")[0] == 47u8 && lit("/table")[1] == 116u8 && lit("/table")[2] == 97u8 && lit("/table")[3] == 98u8 && lit("/table")[4] == 108u8 && lit("/table")[5] == 101u8);
    reveal_strlit("<code>");
    reveal_strlit("</code>");
    assert(lower_seq(lit("code")) =~= lit("code"));
    assert(lower_seq(lit("/code")) =~= lit("/code"));
    assert(tag_effect(lit("code")) == TagEffect::Switch(ChunkType::Code));
    assert(tag_effect(lit("/code")) == TagEffect::Switch(ChunkType::Paragraph));
    lemma_tagged(lit("code"), lit("/code"), ChunkType::Code, ChunkType::Paragraph, x);
    assert(lit("<code>") + x + lit("</code>") =~= seq![60u8] + lit("code") + seq![62u8] + x + seq![60u8] + lit("/code") + seq![62u8]);
}

#[verifier::spinoff_prover]
proof fn lemma_tag_li(x: Seq<u8>)
    requires
        plain_text(x),
    ensures
        html_chunks(lit("<li>") + x + lit("</li>")) == lone_chunk(ChunkType::ListItem, x),
{
    reveal_strlit("script");
    assert(lit("script").len() == 6 && lit("script")[0] == 115u8 && lit("script")[1] == 99u8 && lit("script")[2] == 114u8 && lit("script")[3] == 105u8 && lit("script")[4] == 112u8 && lit("script")[5] == 116u8);
    reveal_strlit("/script");
    assert(lit("/script").len() == 7 && lit("/script")[0] == 47u8 && lit("/script")[1] == 115u8 && lit("/script")[2] == 99u8 && lit("/script")[3] == 114u8 && lit("/script")[4] == 105u8 && lit("/script")[5] == 112u8 && lit("/script")[6] == 116u8);
    reveal_strlit("style");
    assert(lit("style").len() == 5 && lit("style")[0] == 115u8 && lit("style")[1] == 116u8 && lit("style")[2] == 121u8 && lit("style")[3] == 108u8 && lit("style")[4] == 101u8);
    reveal_strlit("/style");
    assert(lit("/style").len() == 6 && lit("/style")[0] == 47u8 && lit("/style")[1] == 115u8 && lit("/style")[2] == 116u8 && lit("/style")[3] == 121u8 && lit("/style")[4] == 108u8 && lit("/style")[5] == 101u8);
    reveal_strlit("title");
    assert(lit("title").len() == 5 && lit("title")[0] == 116u8 && lit("title")[1] == 105u8 && lit("title")[2] == 116u8 && lit("title")[3] == 108u8 && lit("title")[4] == 101u8);
    reveal_strlit("h1");
    assert(lit("h1").len() == 2 && lit("h1")[0] == 104u8 && lit("h1")[1] == 49u8);
    reveal_strlit("h2");
    assert(lit("h2").len() == 2 && lit("h2")[0] == 104u8 && lit("h2")[1] == 50u8);
    reveal_strlit("h3");
    assert(lit("h3").len() == 2 && lit("h3")[0] == 104u8 && lit("h3")[1] == 51u8);
    reveal_strlit("h4");
    assert(lit("h4").len() == 2 && lit("h4")[0] == 104u8 && lit("h4")[1] == 52u8);
    reveal_strlit("h5");
    assert(lit("h5").len() == 2 && lit("h5")[0] == 104u8 && lit("h5")[1] == 53u8);
    reveal_strlit("h6");
    assert(lit("h6").len() == 2 && lit("h6")[0] == 104u8 && lit("h6")[1] == 54u8);
    reveal_strlit("pre");
    assert(lit("pre").len() == 3 && lit("pre")[0] == 112u8 && lit("pre")[1] == 114u8 && lit("pre")[2] == 101u8);
    reveal_strlit("code");
    assert(lit("code").len() == 4 && lit("code")[0] == 99u8 && lit("code")[1] == 111u8 && lit("code")[2] == 100u8 && lit("code")[3] == 101u8);
    reveal_strlit("li");
    assert(lit("li").len() == 2 && lit("li")[0] == 108u8 && lit("li")[1] == 105u8);
    reveal_strlit("table");
    assert(lit("table").len() == 5 && lit("table")[0] == 116u8 && lit("table")[1] == 97u8 && lit("table")[2] == 98u8 && lit("table")[3] == 108u8 && lit("table")[4] == 101u8);
    reveal_strlit("br");
    assert(lit("br").len() == 2 && lit("br")[0] == 98u8 && lit("br")[1] == 114u8);
    reveal_strlit("br/");
    assert(lit("br/").len() == 3 && lit("br/")[0] == 98u8 && lit("br/")[1] == 114u8 && lit("br/")[2] == 47u8);
    reveal_strlit("/title");
    assert(lit("/title").len() == 6 && lit("/title")[0] == 47u8 && lit("/title")[1] == 116u8 && lit("/title")[2] == 105u8 && lit("/title")[3] == 116u8 && lit("/title")[4] == 108u8 && lit("/title")[5] == 101u8);
    reveal_strlit("/h1");
    assert(lit("/h1").len() == 3 && lit("/h1")[0] == 47u8 && lit("/h1")[1] == 104u8 && lit("/h1")[2] == 49u8);
    reveal_strlit("/h2");
    assert(lit("/h2").len() == 3 && lit("/h2")[0] == 47u8 && lit("/h2")[1] == 104u8 && lit("/h2")[2] == 50u8);
    reveal_strlit("/h3");
    assert(lit("/h3").len() == 3 && lit("/h3")[0] == 47u8 && lit("/h3")[1] == 104u8 && lit("/h3")[2] == 51u8);
    reveal_strlit("/h4");
    assert(lit("/h4").len() == 3 && lit("/h4")[0] == 47u8 && lit("/h4")[1] == 104u8 && lit("/h4")[2] == 52u8);
    reveal_strlit("/h5");
    assert(lit("/h5").len() == 3 && lit("/h5")[0] == 47u8 && lit("/h5")[1] == 104u8 && lit("/h5")[2] == 53u8);
    reveal_strlit("/h6");
    assert(lit("/h6").len() == 3 && lit("/h6")[0] == 47u8 && lit("/h6")[1] == 104u8 && lit("/h6")[2] == 54u8);
    reveal_strlit("/pre");
    assert(lit("/pre").len() == 4 && lit("/pre")[0] == 47u8 && lit("/pre")[1] == 112u8 && lit("/pre")[2] == 114u8 && lit("/pre")[3] == 101u8);
    reveal_strlit("/code");
    assert(lit("/code").len() == 5 && lit("/code")[0] == 47u8 && lit("/code")[1] == 99u8 && lit("/code")[2] == 111u8 && lit("/code")[3] == 100u8 && lit("/code")[4] == 101u8);
    reveal_strlit("/li");
    assert(lit("/li").len() == 3 && lit("/li")[0] == 47u8 && lit("/li")[1] == 108u8 && lit("/li")[2] == 105u8);
    reveal_strlit("/table");
    assert(lit("/table").len() == 6 && lit("/table")[0] == 47u8 && lit("/table")[1] == 116u8 && lit("/table")[2] == 97u8 && lit("/table")[3] == 98u8 && lit("/table")[4] == 108u8 && lit("/table")[5] == 101u8);
    reveal_strlit("<li>");
    reveal_strlit("</li>");
    assert(lower_seq(lit("li")) =~= lit("li"));
    assert(lower_seq(lit("/li")) =~= lit("/li"));
    assert(tag_effect(lit("li")) == TagEffect::Switch(ChunkType::ListItem));
    assert(tag_effect(lit("/li")) == TagEffect::Switch(ChunkType::Paragraph));
    lemma_tagged(lit("li"), lit("/li"), ChunkType::ListItem, ChunkType::Paragraph, x);
    assert(lit("<li>") + x + lit("</li>") =~= seq![60u8] + lit("li") + seq![62u8] + x + seq![60u8] + lit("/li") + seq![62u8]);
}

#[verifier::spinoff_prover]
proof fn lemma_tag_table(x: Seq<u8>)
    requires
        plain_text(x),
    ensures
        html_chunks(lit("<table>") + x + lit("</table>")) == lone_chunk(ChunkType::Table, x),
{
    reveal_strlit("script");
    assert(lit("script").len() == 6 && lit("script")[0] == 115u8 && lit("script")[1] == 99u8 && lit("script")[2] == 114u8 && lit("script")[3] == 105u8 && lit("script")[4] == 112u8 && lit("script")[5] == 116u8);
    reveal_strlit("/script");
    assert(lit("/script").len() == 7 && lit("/script")[0] == 47u8 && lit("/script")[1] == 115u8 && lit("/script")[2] == 99u8 && lit("/script")[3] == 114u8 && lit("/script")[4] == 105u8 && lit("/script")[5] == 112u8 && lit("/script")[6] == 116u8);
    reveal_strlit("style");
    assert(lit("style").len() == 5 && lit("style")[0] == 115u8 && lit("style")[1] == 116u8 && lit("style")[2] == 121u8 && lit("style")[3] == 108u8 && lit("style")[4] == 101u8);
    reveal_strlit("/style");
    assert(lit("/style").len() == 6 && lit("/style")[0] == 47u8 && lit("/style")[1] == 115u8 && lit("/style")[2] == 116u8 && lit("/style")[3] == 121u8 && lit("/style")[4] == 108u8 && lit("/style")[5] == 101u8);
    reveal_strlit("title");
    assert(lit("title").len() == 5 && lit("title")[0] == 116u8 && lit("title")[1] == 105u8 && lit("title")[2] == 116u8 && lit("title")[3] == 108u8 && lit("title")[4] == 101u8);
    reveal_strlit("h1");
    assert(lit("h1").len() == 2 && lit("h1")[0] == 104u8 && lit("h1")[1] == 49u8);
    reveal_strlit("h2");
    assert(lit("h2").len() == 2 && lit("h2")[0] == 104u8 && lit("h2")[1] == 50u8);
    reveal_strlit("h3");
    assert(lit("h3").len() == 2 && lit("h3")[0] == 104u8 && lit("h3")[1] == 51u8);
    reveal_strlit("h4");
    assert(lit("h4").len() == 2 && lit("h4")[0] == 104u8 && lit("h4")[1] == 52u8);
    reveal_strlit("h5");
    assert(lit("h5").len() == 2 && lit("h5")[0] == 104u8 && lit("h5")[1] == 53u8);
    reveal_strlit("h6");
    assert(lit("h6").len() == 2 && lit("h6")[0] == 104u8 && lit("h6")[1] == 54u8);
    reveal_strlit("pre");
    assert(lit("pre").len() == 3 && lit("pre")[0] == 112u8 && lit("pre")[1] == 114u8 && lit("pre")[2] == 101u8);
    reveal_strlit("code");
    assert(lit("code").len() == 4 && lit("code")[0] == 99u8 && lit("code")[1] == 111u8 && lit("code")[2] == 100u8 && lit("code")[3] == 101u8);
    reveal_strlit("li");
    assert(lit("li").len() == 2 && lit("li")[0] == 108u8 && lit("li")[1] == 105u8);
    reveal_strlit("table");
    assert(lit("table").len() == 5 && lit("table")[0] == 116u8 && lit("table")[1] == 97u8 && lit("table")[2] == 98u8 && lit("table")[3] == 108u8 && lit("table")[4] == 101u8);
    reveal_strlit("br");
    assert(lit("br").len() == 2 && lit("br")[0] == 98u8 && lit("br")[1] == 114u8);
    reveal_strlit("br/");
    assert(lit("br/").len() == 3 && lit("br/")[0] == 98u8 && lit("br/")[1] == 114u8 && lit("br/")[2] == 47u8);
    reveal_strlit("/title");
    assert(lit("/title").len() == 6 && lit("/title")[0] == 47u8 && lit("/title")[1] == 116u8 && lit("/title")[2] == 105u8 && lit("/title")[3] == 116u8 && lit("/title")[4] == 108u8 && lit("/title")[5] == 101u8);
    reveal_strlit("/h1");
    assert(lit("/h1").len() == 3 && lit("/h1")[0] == 47u8 && lit("/h1")[1] == 104u8 && lit("/h1")[2] == 49u8);
    reveal_strlit("/h2");
    assert(lit("/h2").len() == 3 && lit("/h2")[0] == 47u8 && lit("/h2")[1] == 104u8 && lit("/h2")[2] == 50u8);
    reveal_strlit("/h3");
    assert(lit("/h3").len() == 3 && lit("/h3")[0] == 47u8 && lit("/h3")[1] == 104u8 && lit("/h3")[2] == 51u8);
    reveal_strlit("/h4");
    assert(lit("/h4").len() == 3 && lit("/h4")[0] == 47u8 && lit("/h4")[1] == 104u8 && lit("/h4")[2] == 52u8);
    reveal_strlit("/h5");
    assert(lit("/h5").len() == 3 && lit("/h5")[0] == 47u8 && lit("/h5")[1] == 104u8 && lit("/h5")[2] == 53u8);
    reveal_strlit("/h6");
    assert(lit("/h6").len() == 3 && lit("/h6")[0] == 47u8 && lit("/h6")[1] == 104u8 && lit("/h6")[2] == 54u8);
    reveal_strlit("/pre");
    assert(lit("/pre").len() == 4 && lit("/pre")[0] == 47u8 && lit("/pre")[1] == 112u8 && lit("/pre")[2] == 114u8 && lit("/pre")[3] == 101u8);
    reveal_strlit("/code");
    assert(lit("/code").len() == 5 && lit("/code")[0] == 47u8 && lit("/code")[1] == 99u8 && lit("/code")[2] == 111u8 && lit("/code")[3] == 100u8 && lit("/code")[4] == 101u8);
    reveal_strlit("/li");
    assert(lit("/li").len() == 3 && lit("/li")[0] == 47u8 && lit("/li")[1] == 108u8 && lit("/li")[2] == 105u8);
    reveal_strlit("/table");
    assert(lit("/table").len() == 6 && lit("/table")[0] == 47u8 && lit("/table")[1] == 116u8 && lit("/table")[2] == 97u8 && lit("/table")[3] == 98u8 && lit("/table")[4] == 108u8 && lit("/table")[5] == 101u8);
    reveal_strlit("<table>");
    reveal_strlit("</table>");
    assert(lower_seq(lit("table")) =~= lit("table"));
    assert(lower_seq(lit("/table")) =~= lit("/table"));
    assert(tag_effect(lit("table")) == TagEffect::Switch(ChunkType::Table));
    assert(tag_effect(lit("/table")) == TagEffect::Switch(ChunkType::Paragraph));
    lemma_tagged(lit("table"), lit("/table"), ChunkType::Table, ChunkType::Paragraph, x);
    assert(lit("<table>") + x + lit("</table>") =~= seq![60u8] + lit("table") + seq![62u8] + x + seq![60u8] + lit("/table") + seq![62u8]);
}

/// The kind of text a tag opens: text alone inside `<title>`, `<h1>` to
/// `<h6>`, `<pre>`, `<code>`, `<li>` or `<table>` (printable, with no markup,
/// not blank) is one chunk of that kind: a title, a heading of that level
/// (4 for `<h4>` to `<h6>`),
/// code, a list item or a table, holding the trimmed text.
pub proof fn lemma_tag_kinds(x: Seq<u8>)
    requires
        plain_text(x),
    ensures
        html_chunks(lit("<title>") + x + lit("</title>")) == lone_chunk(ChunkType::Title, x),
        html_chunks(lit("<h1>") + x + lit("</h1>")) == lone_chunk(ChunkType::Heading { level: 1 }, x),
        html_chunks(lit("<h2>") + x + lit("</h2>")) == lone_chunk(ChunkType::Heading { level: 2 }, x),
        html_chunks(lit("<h3>") + x + lit("</h3>")) == lone_chunk(ChunkType::Heading { level: 3 }, x),
        html_chunks(lit("<h4>") + x + lit("</h4>")) == lone_chunk(ChunkType::Heading { level: 4 }, x),
        html_chunks(lit("<h5>") + x + lit("</h5>")) == lone_chunk(ChunkType::Heading { level: 4 }, x),
        html_chunks(lit("<h6>") + x + lit("</h6>")) == lone_chunk(ChunkType::Heading { level: 4 }, x),
        html_chunks(lit("<pre>") + x + lit("</pre>")) == lone_chunk(ChunkType::Code, x),
        html_chunks(lit("<code>") + x + lit("</code>")) == lone_chunk(ChunkType::Code, x),
        html_chunks(lit("<li>") + x + lit("</li>")) == lone_chunk(ChunkType::ListItem, x),
        html_chunks(lit("<table>") + x + lit("</table>")) == lone_chunk(ChunkType::Table, x),
{
    lemma_tag_title(x);
    lemma_tag_h1(x);
    lemma_tag_h2(x);
    lemma_tag_h3(x);
    lemma_tag_h4(x);
    lemma_tag_h5(x);
    lemma_tag_h6(x);
    lemma_tag_pre(x);
    lemma_tag_code(x);
    lemma_tag_li(x);
    lemma_tag_table(x);
}

struct Scan {
    chunks: Vec<Chunk>,
    text: Vec<u8>,
    typ: ChunkType,
    in_tag: bool,
    collecting: bool,
    tag: Vec<u8>,
    in_script: bool,
    in_style: bool,
}

impl View for Scan {
    type V = ScanModel;

    closed spec fn view(&self) -> ScanModel {
        ScanModel {
            chunks: cviews(self.chunks@),
            text: self.text@,
            typ: self.typ,
            in_tag: self.in_tag,
            collecting: self.collecting,
            tag: self.tag@,
            in_script: self.in_script,
            in_style: self.in_style,
        }
    }
}

/// Closes off pending text as a chunk unless it is blank.
fn flush_chunk(chunks: &mut Vec<Chunk>, text: &mut Vec<u8>, typ: ChunkType)
    ensures
        cviews(final(chunks)@) == flushed(cviews(old(chunks)@), old(text)@, typ),
        final(text)@ == Seq::<u8>::empty(),
{
    let t = utrim_bytes(text.as_slice());
    if t.len() > 0 {
        let c = Chunk { typ, text: crate::text::to_vec(t), tokens_estimate: t.len() / 4 + (if t.len() % 4 == 0 { 0 } else { 1 }) };
        assert(c.tokens_estimate == token_estimate(t@.len()));
        let ghost c0 = chunks@;
        chunks.push(c);
        assert(cviews(chunks@) =~= cviews(c0).push(c@));
    }
    *text = Vec::new();
}

fn lower_vec(t: &[u8]) -> (r: Vec<u8>)
    ensures
        r@ == lower_seq(t@),
{
    let mut out: Vec<u8> = Vec::new();
    let mut i: usize = 0;
    while i < t.len()
        invariant
            0 <= i <= t@.len(),
            out@ == lower_seq(t@.subrange(0, i as int)),
        decreases t.len() - i,
    {
        out.push(crate::text::to_lower_byte(t[i]));
        assert(lower_seq(t@.subrange(0, i + 1)) =~= lower_seq(t@.subrange(0, i as int)).push(lower(t@[i as int])));
        i = i + 1;
    }
    assert(t@.subrange(0, i as int) =~= t@);
    out
}

impl Scan {
    fn step(&mut self, s: &[u8], i: usize) -> (j: usize)
        requires
            i < s@.len(),
        ensures
            (final(self)@, j as int) == scan_step(s@, i as int, old(self)@),
            i <= j < s@.len(),
    {
        let b = s[i];
        if self.in_tag {
            if b == 62 {
                let low = lower_vec(self.tag.as_slice());
                let eff = tag_effect_exec(low.as_slice());
                self.in_tag = false;
                self.collecting = false;
                self.tag = Vec::new();
                match eff {
                    TagEffect::ScriptOn => self.in_script = true,
                    TagEffect::ScriptOff => self.in_script = false,
                    TagEffect::StyleOn => self.in_style = true,
                    TagEffect::StyleOff => self.in_style = false,
                    TagEffect::Switch(t) => {
                        flush_chunk(&mut self.chunks, &mut self.text, self.typ);
                        self.typ = t;
                    },
                    TagEffect::Break => self.text.push(10),
                    TagEffect::Nothing => {},
                }
            } else if self.collecting {
                if b == 32 || b == 9 || b == 10 || b == 13 {
                    self.collecting = false;
                } else {
                    self.tag.push(b);
                }
            }
            i
        } else if b == 60 {
            self.in_tag = true;
            self.collecting = true;
            self.tag = Vec::new();
            i
        } else if b == 38 {
            let (e, j) = entity_at_exec(s, i);
            if !self.in_script && !self.in_style {
                push_all(&mut self.text, e.as_slice());
            }
            j
        } else if self.in_script || self.in_style {
            i
        } else if b == 10 || b == 13 || b == 9 {
            let n = self.text.len();
            if !(n > 0 && self.text[n - 1] == 32) {
                self.text.push(32);
            }
            i
        } else {
            push_utf8(&mut self.text, b as u32);
            i
        }
    }
}

/// Reduces markup to typed text chunks: tags set the kind of the text that
/// follows (title, headings, code, list items, tables, paragraphs), script
/// and style contents are dropped, character references are decoded, line
/// breaks and tabs fold to one space, and blank chunks are dropped.
pub fn strip_html(html: &[u8]) -> (r: Vec<Chunk>)
    ensures
        cviews(r@) == html_chunks(html@),
        chunks_ok(cviews(r@)),
        lacks_byte(html@, 38) ==> chunks_lack_lt(cviews(r@)),
{
    proof {
        lemma_chunks_have_text(html@);
        if lacks_byte(html@, 38) {
            lemma_no_markup_in_chunks(html@);
        }
    }
    let mut st = Scan {
        chunks: Vec::new(),
        text: Vec::new(),
        typ: ChunkType::Paragraph,
        in_tag: false,
        collecting: false,
        tag: Vec::new(),
        in_script: false,
        in_style: false,
    };
    assert(cviews(st.chunks@) =~= seq![]);
    assert(st@ =~= scan_start());
    let n = html.len();
    let mut i: usize = 0;
    while i < n
        invariant
            0 <= i <= n,
            n == html@.len(),
            scan(html@, 0, scan_start()) == scan(html@, i as int, st@),
        decreases n - i,
    {
        let j = st.step(html, i);
        i = j + 1;
    }
    flush_chunk(&mut st.chunks, &mut st.text, st.typ);
    st.chunks
}

// ---------------------------------------------------------------------
// Pages
// ---------------------------------------------------------------------

/// The JSON of a chunk.
pub open spec fn chunk_json(c: ChunkModel) -> JModel {
    JModel::Object(
        jinsert(
            jinsert(jinsert(seq![], lit("type"), JModel::Str(chunk_type_name(c.typ))), lit("text"), JModel::Str(c.text)),
            lit("tokens"),
            JModel::Number(dec(c.tokens)),
        ),
    )
}

impl Chunk {
    pub fn to_json(&self) -> (r: JsonValue)
        ensures
            r@ == chunk_json(self@),
    {
        proof {
            reveal_strlit("type");
            reveal_strlit("text");
            reveal_strlit("tokens");
        }
        let name = self.typ.as_str();
        let mut m: Vec<(Vec<u8>, JsonValue)> = Vec::new();
        assert(jentries(m@) =~= seq![]);
        object_insert(&mut m, ascii_bytes("type"), JsonValue::Str(ascii_bytes(name)));
        object_insert(&mut m, ascii_bytes("text"), JsonValue::Str(crate::text::to_vec(self.text.as_slice())));
        object_insert(&mut m, ascii_bytes("tokens"), json_u64(self.tokens_estimate as u64));
        JsonValue::Object(m)
    }

    fn duplicate(&self) -> (r: Chunk)
        ensures
            r@ == self@,
    {
        Chunk { typ: self.typ, text: crate::text::to_vec(self.text.as_slice()), tokens_estimate: self.tokens_estimate }
    }
}

/// A page read for the model: where it came from, its chunks, their
/// token total, whether chunks were left out, and whether the text came
/// from the site's `llms.txt`.
#[derive(Debug)]
pub struct PageContent {
    pub url: Vec<u8>,
    pub domain: Vec<u8>,
    pub chunks: Vec<Chunk>,
    pub total_tokens: usize,
    pub has_more: bool,
    pub source_llms_txt: bool,
}

/// Model of a page.
pub struct PageModel {
    pub url: Seq<u8>,
    pub domain: Seq<u8>,
    pub chunks: Seq<ChunkModel>,
    pub total_tokens: nat,
    pub has_more: bool,
    pub source_llms_txt: bool,
}

impl View for PageContent {
    type V = PageModel;

    open spec fn view(&self) -> PageModel {
        PageModel {
            url: self.url@,
            domain: self.domain@,
            chunks: cviews(self.chunks@),
            total_tokens: self.total_tokens as nat,
            has_more: self.has_more,
            source_llms_txt: self.source_llms_txt,
        }
    }
}

/// The JSON of a page.
pub open spec fn page_json(p: PageModel) -> JModel {
    JModel::Object(
        jinsert(
            jinsert(
                jinsert(
                    jinsert(
                        jinsert(jinsert(seq![], lit("url"), JModel::Str(p.url)), lit("domain"), JModel::Str(p.domain)),
                        lit("chunks"),
                        JModel::Array(p.chunks.map_values(|c: ChunkModel| chunk_json(c))),
                    ),
                    lit("total_tokens"),
                    JModel::Number(dec(p.total_tokens)),
                ),
                lit("has_more"),
                JModel::Bool(p.has_more),
            ),
            lit("source_llms_txt"),
            JModel::Bool(p.source_llms_txt),
        ),
    )
}

impl PageContent {
    pub fn to_json(&self) -> (r: JsonValue)
        ensures
            r@ == page_json(self@),
    {
        proof {
            reveal_strlit("url");
            reveal_strlit("domain");
            reveal_strlit("chunks");
            reveal_strlit("total_tokens");
            reveal_strlit("has_more");
            reveal_strlit("source_llms_txt");
        }
        let ghost cs = cviews(self.chunks@);
        let mut arr: Vec<JsonValue> = Vec::new();
        let mut i: usize = 0;
        while i < self.chunks.len()
            invariant
                0 <= i <= self.chunks@.len(),
                cs == cviews(self.chunks@),
                crate::json::jviews(arr@) == cs.subrange(0, i as int).map_values(|c: ChunkModel| chunk_json(c)),
            decreases self.chunks.len() - i,
        {
            let ghost a0 = arr@;
            arr.push(self.chunks[i].to_json());
            assert(arr@.drop_last() =~= a0);
            assert(cs.subrange(0, i + 1).map_values(|c: ChunkModel| chunk_json(c)) =~= cs.subrange(0, i as int).map_values(
                |c: ChunkModel| chunk_json(c),
            ).push(chunk_json(cs[i as int])));
            i = i + 1;
        }
        assert(cs.subrange(0, i as int) =~= cs);
        let mut m: Vec<(Vec<u8>, JsonValue)> = Vec::new();
        assert(jentries(m@) =~= seq![]);
        object_insert(&mut m, ascii_bytes("url"), JsonValue::Str(crate::text::to_vec(self.url.as_slice())));
        object_insert(&mut m, ascii_bytes("domain"), JsonValue::Str(crate::text::to_vec(self.domain.as_slice())));
        object_insert(&mut m, ascii_bytes("chunks"), JsonValue::Array(arr));
        object_insert(&mut m, ascii_bytes("total_tokens"), json_u64(self.total_tokens as u64));
        object_insert(&mut m, ascii_bytes("has_more"), JsonValue::Bool(self.has_more));
        object_insert(&mut m, ascii_bytes("source_llms_txt"), JsonValue::Bool(self.source_llms_txt));
        JsonValue::Object(m)
    }
}

/// The URL without its `http://` or `https://` scheme.
pub open spec fn after_scheme(url: Seq<u8>) -> Seq<u8> {
    if crate::text::has_prefix(url, lit("http://")) {
        url.subrange(7, url.len() as int)
    } else if crate::text::has_prefix(url, lit("https://")) {
        url.subrange(8, url.len() as int)
    } else {
        url
    }
}

/// The host part of a URL: what follows the scheme, up to the first `/`.
pub open spec fn url_domain(url: Seq<u8>) -> Seq<u8> {
    let rest = after_scheme(url);
    match crate::text::find(rest, 47) {
        Some(i) => rest.subrange(0, i),
        None => rest,
    }
}

fn strip_scheme(url: &[u8]) -> (r: &[u8])
    ensures
        r@ == after_scheme(url@),
{
    proof {
        reveal_strlit("http://");
        reveal_strlit("https://");
    }
    if crate::text::starts_with(url, ascii_bytes("http://").as_slice()) {
        vstd::slice::slice_subrange(url, 7, url.len())
    } else if crate::text::starts_with(url, ascii_bytes("https://").as_slice()) {
        vstd::slice::slice_subrange(url, 8, url.len())
    } else {
        url
    }
}

/// The host part of a URL.
pub fn extract_domain(url: &[u8]) -> (r: Vec<u8>)
    ensures
        r@ == url_domain(url@),
{
    let rest = strip_scheme(url);
    match crate::text::find_byte(rest, 47) {
        Some(i) => {
            proof {
                crate::text::lemma_find_from(rest@, 47, 0);
            }
            crate::text::to_vec(vstd::slice::slice_subrange(rest, 0, i))
        },
        None => crate::text::to_vec(rest),
    }
}

/// Whether `end` falls between two UTF-8 characters of `t`.
pub open spec fn char_boundary(t: Seq<u8>, end: int) -> bool {
    end == 0 || end == t.len() || (0 < end < t.len() && (t[end] < 0x80 || t[end] >= 0xC0))
}

/// Backs `end` off to a character boundary.
pub open spec fn back_to_boundary(t: Seq<u8>, end: int) -> int
    decreases end,
{
    if end <= 0 || char_boundary(t, end) {
        end
    } else {
        back_to_boundary(t, end - 1)
    }
}

/// Backs `end` off until the byte before it is ASCII whitespace.
pub open spec fn back_to_space(t: Seq<u8>, end: int) -> int
    decreases end,
{
    if end <= 0 || is_space(t[end - 1]) {
        end
    } else {
        back_to_space(t, end - 1)
    }
}

/// Where text longer than `max_chars` is cut: after the last whitespace at
/// or before the limit, or at the limit when there is none.
pub open spec fn cut_at(t: Seq<u8>, max_chars: int) -> int {
    let e = back_to_space(t, back_to_boundary(t, max_chars));
    if e == 0 {
        max_chars
    } else {
        e
    }
}

/// Text cut to about `max_tokens` tokens (four bytes each), and whether
/// it was cut.
pub open spec fn truncated(t: Seq<u8>, max_tokens: nat) -> (Seq<u8>, bool) {
    if t.len() <= max_tokens * 4 {
        (t, false)
    } else {
        (t.subrange(0, cut_at(t, (max_tokens * 4) as int)), true)
    }
}

/// Whether cutting `t` to `max_tokens` tokens lands between characters
/// (cutting inside a character is refused).
pub open spec fn cut_ok(t: Seq<u8>, max_tokens: nat) -> bool {
    t.len() <= max_tokens * 4 || char_boundary(t, cut_at(t, (max_tokens * 4) as int))
}

proof fn lemma_back_to_boundary(t: Seq<u8>, end: int)
    requires
        0 <= end,
    ensures
        0 <= back_to_boundary(t, end) <= end,
    decreases end,
{
    if end > 0 && !char_boundary(t, end) {
        lemma_back_to_boundary(t, end - 1);
    }
}

proof fn lemma_back_to_space(t: Seq<u8>, end: int)
    requires
        0 <= end <= t.len(),
    ensures
        0 <= back_to_space(t, end) <= end,
    decreases end,
{
    if end > 0 && !is_space(t[end - 1]) {
        lemma_back_to_space(t, end - 1);
    }
}

fn is_boundary(t: &[u8], end: usize) -> (r: bool)
    ensures
        r == char_boundary(t@, end as int),
{
    end == 0 || end == t.len() || (end < t.len() && (t[end] < 0x80 || t[end] >= 0xC0))
}

fn cut_point(t: &[u8], max_chars: usize) -> (r: usize)
    requires
        max_chars < t@.len(),
    ensures
        r == cut_at(t@, max_chars as int),
        r <= max_chars,
{
    let mut end = max_chars;
    while end > 0 && !is_boundary(t, end)
        invariant
            0 <= end <= max_chars,
            back_to_boundary(t@, max_chars as int) == back_to_boundary(t@, end as int),
        decreases end,
    {
        end = end - 1;
    }
    let ghost b = end;
    while end > 0 && !(t[end - 1] == 32 || (9 <= t[end - 1] && t[end - 1] <= 13))
        invariant
            0 <= end <= b <= max_chars < t@.len(),
            back_to_space(t@, b as int) == back_to_space(t@, end as int),
        decreases end,
    {
        end = end - 1;
    }
    if end == 0 {
        max_chars
    } else {
        end
    }
}

/// Whether cutting `t` to `max_tokens` tokens lands between characters.
pub fn cut_fits(t: &[u8], max_tokens: usize) -> (r: bool)
    requires
        max_tokens <= usize::MAX / 4,
    ensures
        r == cut_ok(t@, max_tokens as nat),
{
    let max_chars = max_tokens * 4;
    if t.len() <= max_chars {
        true
    } else {
        is_boundary(t, cut_point(t, max_chars))
    }
}

/// Cuts text to about `max_tokens` tokens at a word boundary.
pub fn truncate_to_tokens(t: &[u8], max_tokens: usize) -> (r: (Vec<u8>, bool))
    requires
        max_tokens <= usize::MAX / 4,
        cut_ok(t@, max_tokens as nat),
    ensures
        (r.0@, r.1) == truncated(t@, max_tokens as nat),
{
    let max_chars = max_tokens * 4;
    if t.len() <= max_chars {
        (crate::text::to_vec(t), false)
    } else {
        let end = cut_point(t, max_chars);
        (crate::text::to_vec(vstd::slice::slice_subrange(t, 0, end)), true)
    }
}

/// The sum of the chunks' token estimates.
pub open spec fn tokens_sum(cs: Seq<ChunkModel>) -> nat
    decreases cs.len(),
{
    if cs.len() == 0 {
        0
    } else {
        tokens_sum(cs.drop_last()) + cs.last().tokens
    }
}

/// How many leading chunks fit in `max` tokens counting from `i` with
/// `acc` already used, and whether any were left out.
pub open spec fn fit_chunks(cs: Seq<ChunkModel>, max: nat, i: int, acc: nat) -> (int, bool)
    decreases cs.len() - i,
{
    if i < 0 || i >= cs.len() {
        (cs.len() as int, false)
    } else if acc + cs[i].tokens > max {
        (i, true)
    } else {
        fit_chunks(cs, max, i + 1, acc + cs[i].tokens)
    }
}

/// A page whose whole text came from a site's `llms.txt` (or `llm.txt`).
pub open spec fn text_page(url: Seq<u8>, text: Seq<u8>, max_tokens: nat) -> PageModel {
    let tk = token_estimate(text.len());
    PageModel {
        url,
        domain: url_domain(url),
        chunks: seq![ChunkModel { typ: ChunkType::Paragraph, text: truncated(text, max_tokens).0, tokens: tk }],
        total_tokens: tk,
        has_more: truncated(text, max_tokens).1,
        source_llms_txt: true,
    }
}

/// A page read from its markup: the chunks that fit in `max_tokens`, with
/// the token total of all of them (held at `usize::MAX` at most).
pub open spec fn markup_page(url: Seq<u8>, html: Seq<u8>, max_tokens: nat) -> PageModel {
    let cs = html_chunks(html);
    let fit = fit_chunks(cs, max_tokens, 0, 0);
    PageModel {
        url,
        domain: url_domain(url),
        chunks: cs.subrange(0, fit.0),
        total_tokens: if tokens_sum(cs) <= usize::MAX { tokens_sum(cs) } else { usize::MAX as nat },
        has_more: fit.1,
        source_llms_txt: false,
    }
}

/// A page that could not be read.
pub open spec fn empty_page(url: Seq<u8>) -> PageModel {
    PageModel { url, domain: url_domain(url), chunks: seq![], total_tokens: 0, has_more: false, source_llms_txt: false }
}

/// Where a page's text is read from, in the order tried.
#[derive(Debug, Clone, Copy, PartialEq, Eq, Structural)]
pub enum PageSource {
    LlmsTxt,
    LlmTxt,
    Markup,
}

/// What reading a page does next: fetch a URL, or hand back the page.
#[derive(Debug)]
pub enum PageAction {
    Fetch(Vec<u8>, PageSource),
    Done(PageContent),
}

/// Model of a page action.
pub enum PageActionModel {
    Fetch(Seq<u8>, PageSource),
    Done(PageModel),
}

impl View for PageAction {
    type V = PageActionModel;

    open spec fn view(&self) -> PageActionModel {
        match self {
            PageAction::Fetch(u, s) => PageActionModel::Fetch(u@, *s),
            PageAction::Done(p) => PageActionModel::Done(p@),
        }
    }
}

/// `scheme://host/name` for the scheme and host of `url` (`http` unless
/// the URL is `https://`).
pub open spec fn site_file(url: Seq<u8>, name: Seq<u8>) -> Seq<u8> {
    (if crate::text::has_prefix(url, lit("https://")) {
        lit("https")
    } else {
        lit("http")
    }) + lit("://") + url_domain(url) + seq![47u8] + name
}

fn site_file_exec(url: &[u8], name: &str) -> (r: Vec<u8>)
    requires
        name.is_ascii(),
    ensures
        r@ == site_file(url@, lit(name)),
{
    proof {
        reveal_strlit("https://");
        reveal_strlit("https");
        reveal_strlit("http");
        reveal_strlit("://");
    }
    let mut out = if crate::text::starts_with(url, ascii_bytes("https://").as_slice()) {
        ascii_bytes("https")
    } else {
        ascii_bytes("http")
    };
    push_all(&mut out, ascii_bytes("://").as_slice());
    let d = extract_domain(url);
    push_all(&mut out, d.as_slice());
    out.push(47);
    push_all(&mut out, ascii_bytes(name).as_slice());
    out
}

/// The first step of reading a page: fetch the site's `llms.txt`.
pub fn page_start(url: &[u8]) -> (r: PageAction)
    ensures
        r@ == PageActionModel::Fetch(site_file(url@, lit("llms.txt")), PageSource::LlmsTxt),
{
    proof {
        reveal_strlit("llms.txt");
    }
    PageAction::Fetch(site_file_exec(url, "llms.txt"), PageSource::LlmsTxt)
}

/// Whether reading text from `llms.txt` would cut it inside a character
/// or overflow the character budget (the reading is refused there).
pub open spec fn text_refused(text: Seq<u8>, max_tokens: nat) -> bool {
    max_tokens > usize::MAX / 4 || !cut_ok(text, max_tokens)
}

/// The next step of reading a page, given what the last fetch brought
/// (`None` when it failed): a non-empty `llms.txt`, then `llm.txt`, is the
/// page; otherwise the markup is read; a failed markup fetch gives an
/// empty page. `None` when the text would be cut inside a character.
pub open spec fn page_next(url: Seq<u8>, max_tokens: nat, source: PageSource, fetched: Option<Seq<u8>>) -> Option<PageActionModel> {
    match source {
        PageSource::Markup => match fetched {
            Some(d) => Some(PageActionModel::Done(markup_page(url, utf8_lossy(d), max_tokens))),
            None => Some(PageActionModel::Done(empty_page(url))),
        },
        _ => {
            if fetched is Some && utf8_lossy(fetched->0).len() > 0 {
                let text = utf8_lossy(fetched->0);
                if text_refused(text, max_tokens) {
                    None
                } else {
                    Some(PageActionModel::Done(text_page(url, text, max_tokens)))
                }
            } else if source == PageSource::LlmsTxt {
                Some(PageActionModel::Fetch(site_file(url, lit("llm.txt")), PageSource::LlmTxt))
            } else {
                Some(PageActionModel::Fetch(url, PageSource::Markup))
            }
        },
    }
}

fn token_estimate_exec(n: usize) -> (r: usize)
    ensures
        r == token_estimate(n as nat),
{
    n / 4 + (if n % 4 == 0 { 0 } else { 1 })
}

fn text_page_exec(url: &[u8], text: &[u8], max_tokens: usize) -> (r: PageContent)
    requires
        !text_refused(text@, max_tokens as nat),
    ensures
        r@ == text_page(url@, text@, max_tokens as nat),
{
    let tk = token_estimate_exec(text.len());
    let (tr, more) = truncate_to_tokens(text, max_tokens);
    let mut chunks: Vec<Chunk> = Vec::new();
    chunks.push(Chunk { typ: ChunkType::Paragraph, text: tr, tokens_estimate: tk });
    let p = PageContent {
        url: crate::text::to_vec(url),
        domain: extract_domain(url),
        chunks,
        total_tokens: tk,
        has_more: more,
        source_llms_txt: true,
    };
    assert(cviews(p.chunks@) =~= text_page(url@, text@, max_tokens as nat).chunks);
    p
}

/// The page read from markup, its chunks cut to the token limit.
pub fn markup_page_exec(url: &[u8], html: &[u8], max_tokens: usize) -> (r: PageContent)
    ensures
        r@ == markup_page(url@, html@, max_tokens as nat),
{
    let mut chunks = strip_html(html);
    let ghost cs = cviews(chunks@);
    let n = chunks.len();
    let mut total: usize = 0;
    let mut i: usize = 0;
    while i < n
        invariant
            0 <= i <= n,
            n == chunks@.len(),
            cs == cviews(chunks@),
            total == (if tokens_sum(cs.subrange(0, i as int)) <= usize::MAX {
                tokens_sum(cs.subrange(0, i as int))
            } else {
                usize::MAX as nat
            }),
        decreases n - i,
    {
        assert(cs.subrange(0, i + 1).drop_last() =~= cs.subrange(0, i as int));
        total = total.saturating_add(chunks[i].tokens_estimate);
        i = i + 1;
    }
    assert(cs.subrange(0, n as int) =~= cs);
    let mut acc: usize = 0;
    let mut keep: usize = n;
    let mut more = false;
    let mut j: usize = 0;
    while j < n
        invariant_except_break
            0 <= j <= n,
            acc <= max_tokens,
            keep == n,
            !more,
            fit_chunks(cs, max_tokens as nat, 0, 0) == fit_chunks(cs, max_tokens as nat, j as int, acc as nat),
        invariant
            n == chunks@.len(),
            cs == cviews(chunks@),
        ensures
            (keep as int, more) == fit_chunks(cs, max_tokens as nat, 0, 0),
            keep <= n,
        decreases n - j,
    {
        let t = chunks[j].tokens_estimate;
        assert(cs[j as int] == chunks@[j as int]@);
        let sum = match acc.checked_add(t) {
            Some(x) => if x > max_tokens {
                None
            } else {
                Some(x)
            },
            None => None,
        };
        match sum {
            Some(x) => acc = x,
            None => {
                keep = j;
                more = true;
                break;
            },
        }
        j = j + 1;
    }
    chunks.truncate(keep);
    assert(cviews(chunks@) =~= cs.subrange(0, keep as int));
    PageContent {
        url: crate::text::to_vec(url),
        domain: extract_domain(url),
        chunks,
        total_tokens: total,
        has_more: more,
        source_llms_txt: false,
    }
}

/// Model of optional bytes.
pub open spec fn bytes_opt(b: Option<&[u8]>) -> Option<Seq<u8>> {
    match b {
        Some(d) => Some(d@),
        None => None,
    }
}

/// The next step of reading a page; see [`page_next`].
pub fn page_after(url: &[u8], max_tokens: usize, source: PageSource, fetched: Option<&[u8]>) -> (r: Option<PageAction>)
    ensures
        match r {
            Some(a) => page_next(url@, max_tokens as nat, source, bytes_opt(fetched)) == Some(a@),
            None => page_next(url@, max_tokens as nat, source, bytes_opt(fetched)) is None,
        },
{
    match source {
        PageSource::Markup => match fetched {
            Some(d) => {
                let text = crate::text::lossy_text(d);
                Some(PageAction::Done(markup_page_exec(url, text.as_slice(), max_tokens)))
            },
            None => {
                let p = PageContent {
                    url: crate::text::to_vec(url),
                    domain: extract_domain(url),
                    chunks: Vec::new(),
                    total_tokens: 0,
                    has_more: false,
                    source_llms_txt: false,
                };
                assert(cviews(p.chunks@) =~= seq![]);
                Some(PageAction::Done(p))
            },
        },
        _ => {
            let text = match fetched {
                Some(d) => crate::text::lossy_text(d),
                None => Vec::new(),
            };
            if fetched.is_some() && text.len() > 0 {
                if max_tokens > usize::MAX / 4 || !cut_fits(text.as_slice(), max_tokens) {
                    None
                } else {
                    Some(PageAction::Done(text_page_exec(url, text.as_slice(), max_tokens)))
                }
            } else if source == PageSource::LlmsTxt {
                proof {
                    reveal_strlit("llm.txt");
                }
                Some(PageAction::Fetch(site_file_exec(url, "llm.txt"), PageSource::LlmTxt))
            } else {
                Some(PageAction::Fetch(crate::text::to_vec(url), PageSource::Markup))
            }
        },
    }
}

// ---------------------------------------------------------------------
// Links
// ---------------------------------------------------------------------

/// The first `</a` (either case) at or after `i` that ends before the
/// last byte of `s`.
pub open spec fn find_close_a(s: Seq<u8>, i: int) -> Option<int>
    decreases s.len() - i,
{
    if i < 0 || i + 3 >= s.len() {
        None
    } else if s[i] == 60 && s[i + 1] == 47 && (s[i + 2] == 97 || s[i + 2] == 65) {
        Some(i)
    } else {
        find_close_a(s, i + 1)
    }
}

proof fn lemma_find_close_a(s: Seq<u8>, i: int)
    requires
        0 <= i,
    ensures
        find_close_a(s, i) matches Some(j) ==> i <= j < s.len(),
    decreases s.len() - i,
{
    if i + 3 < s.len() && !(s[i] == 60 && s[i + 1] == 47 && (s[i + 2] == 97 || s[i + 2] == 65)) {
        lemma_find_close_a(s, i + 1);
    }
}

fn find_close_a_exec(s: &[u8], start: usize) -> (r: Option<usize>)
    ensures
        match r {
            Some(j) => find_close_a(s@, start as int) == Some(j as int),
            None => find_close_a(s@, start as int) is None,
        },
{
    let n = s.len();
    let mut i = start;
    while n >= 3 && i < n - 3
        invariant
            start <= i,
            n == s@.len(),
            find_close_a(s@, start as int) == find_close_a(s@, i as int),
        decreases n - i,
    {
        if s[i] == 60 && s[i + 1] == 47 && (s[i + 2] == 97 || s[i + 2] == 65) {
            return Some(i);
        }
        i = i + 1;
    }
    None
}

/// The value of `name="..."` (or `name='...'`) in a tag.
pub open spec fn attr_value(tag: Seq<u8>, name: Seq<u8>) -> Option<Seq<u8>> {
    let dq = name + lit("=\"");
    let sq = name + lit("='");
    let start = match crate::text::find_sub_from(tag, dq, 0) {
        Some(x) => Some(x),
        None => crate::text::find_sub_from(tag, sq, 0),
    };
    match start {
        None => None,
        Some(st) => {
            let quote: u8 = if crate::text::find_sub_from(tag.subrange(st, tag.len() as int), dq, 0) is Some {
                34
            } else {
                39
            };
            let rest = tag.subrange(st + name.len() + 2, tag.len() as int);
            match crate::text::find(rest, quote) {
                Some(e) => Some(rest.subrange(0, e)),
                None => None,
            }
        },
    }
}

fn extract_attr(tag: &[u8], name: &[u8]) -> (r: Option<Vec<u8>>)
    ensures
        match r {
            Some(v) => attr_value(tag@, name@) == Some(v@),
            None => attr_value(tag@, name@) is None,
        },
{
    proof {
        reveal_strlit("=\"");
        reveal_strlit("='");
    }
    let mut dq = crate::text::to_vec(name);
    push_all(&mut dq, ascii_bytes("=\"").as_slice());
    let mut sq = crate::text::to_vec(name);
    push_all(&mut sq, ascii_bytes("='").as_slice());
    let start = match crate::text::find_sub(tag, dq.as_slice(), 0) {
        Some(x) => {
            proof {
                crate::text::lemma_find_sub_from(tag@, dq@, 0);
            }
            x
        },
        None => match crate::text::find_sub(tag, sq.as_slice(), 0) {
            Some(x) => {
                proof {
                    crate::text::lemma_find_sub_from(tag@, sq@, 0);
                }
                x
            },
            None => return None,
        },
    };
    let tail = vstd::slice::slice_subrange(tag, start, tag.len());
    let quote: u8 = if crate::text::find_sub(tail, dq.as_slice(), 0).is_some() {
        34
    } else {
        39
    };
    let vs = start + name.len() + 2;
    let rest = vstd::slice::slice_subrange(tag, vs, tag.len());
    match crate::text::find_byte(rest, quote) {
        Some(e) => {
            proof {
                crate::text::lemma_find_from(rest@, quote, 0);
            }
            Some(crate::text::to_vec(vstd::slice::slice_subrange(rest, 0, e)))
        },
        None => None,
    }
}

/// The text of `s[i..]` with everything between `<` and `>` left out.
pub open spec fn untag(s: Seq<u8>, i: int, in_tag: bool) -> Seq<u8>
    decreases s.len() - i,
{
    if i < 0 || i >= s.len() {
        seq![]
    } else if s[i] == 60 {
        untag(s, i + 1, true)
    } else if s[i] == 62 {
        untag(s, i + 1, false)
    } else if !in_tag {
        seq![s[i]] + untag(s, i + 1, false)
    } else {
        untag(s, i + 1, true)
    }
}

/// Text with its tags removed, trimmed.
pub open spec fn strip_simple(s: Seq<u8>) -> Seq<u8> {
    utrim(untag(s, 0, false))
}

fn strip_tags_simple(s: &[u8]) -> (r: Vec<u8>)
    ensures
        r@ == strip_simple(s@),
{
    let mut out: Vec<u8> = Vec::new();
    let mut in_tag = false;
    let mut i: usize = 0;
    while i < s.len()
        invariant
            0 <= i <= s@.len(),
            out@ + untag(s@, i as int, in_tag) == untag(s@, 0, false),
        decreases s.len() - i,
    {
        let b = s[i];
        if b == 60 {
            in_tag = true;
        } else if b == 62 {
            in_tag = false;
        } else if !in_tag {
            let ghost o0 = out@;
            out.push(b);
            assert(o0 + (seq![b] + untag(s@, i + 1, false)) =~= out@ + untag(s@, i + 1, false));
        }
        i = i + 1;
    }
    assert(out@ + untag(s@, i as int, in_tag) =~= out@);
    crate::text::to_vec(utrim_bytes(out.as_slice()))
}

/// How a link is classed: on the same site, a document, or elsewhere.
pub open spec fn link_kind(href: Seq<u8>, domain: Seq<u8>) -> Seq<u8> {
    if crate::text::find_sub_from(href, domain, 0) is Some || crate::text::has_prefix(href, lit("/"))
        || crate::text::has_prefix(href, lit("#")) {
        lit("internal")
    } else if crate::text::has_suffix(href, lit(".pdf")) || crate::text::has_suffix(href, lit(".doc"))
        || crate::text::has_suffix(href, lit(".docx")) {
        lit("document")
    } else {
        lit("external")
    }
}

fn link_kind_exec(href: &[u8], domain: &[u8]) -> (r: Vec<u8>)
    ensures
        r@ == link_kind(href@, domain@),
{
    proof {
        reveal_strlit("/");
        reveal_strlit("#");
        reveal_strlit(".pdf");
        reveal_strlit(".doc");
        reveal_strlit(".docx");
        reveal_strlit("internal");
        reveal_strlit("document");
        reveal_strlit("external");
    }
    if crate::text::find_sub(href, domain, 0).is_some() || crate::text::starts_with(href, ascii_bytes("/").as_slice())
        || crate::text::starts_with(href, ascii_bytes("#").as_slice()) {
        ascii_bytes("internal")
    } else if crate::text::ends_with(href, ascii_bytes(".pdf").as_slice()) || crate::text::ends_with(
        href,
        ascii_bytes(".doc").as_slice(),
    ) || crate::text::ends_with(href, ascii_bytes(".docx").as_slice()) {
        ascii_bytes("document")
    } else {
        ascii_bytes("external")
    }
}

/// Bytes that are kept only when they are well-formed UTF-8.
pub open spec fn utf8_or_empty(b: Seq<u8>) -> Seq<u8> {
    if vstd::utf8::valid_utf8(b) {
        b
    } else {
        seq![]
    }
}

/// Whether an `<a` tag opens at `i`: `<`, `a` or `A`, then a space or tab.
pub open spec fn anchor_at(s: Seq<u8>, i: int) -> bool {
    s[i] == 60 && (s[i + 1] == 97 || s[i + 1] == 65) && (s[i + 2] == 32 || s[i + 2] == 9)
}

/// The links of markup from byte `i` on: `(href, text, kind)` of each
/// `<a ...>` with an `href`, in order.
pub open spec fn links_from(s: Seq<u8>, domain: Seq<u8>, i: int) -> Seq<(Seq<u8>, Seq<u8>, Seq<u8>)>
    decreases s.len() - i,
{
    if i < 0 || i + 8 >= s.len() {
        seq![]
    } else if anchor_at(s, i) && crate::text::find_from(s, 62, i) is Some {
        let end = crate::text::find_from(s, 62, i)->0;
        if end < i || end >= s.len() {
            seq![]
        } else {
            match attr_value(utf8_or_empty(s.subrange(i, end + 1)), lit("href")) {
                Some(h) => {
                    let text = match find_close_a(s, end + 1) {
                        Some(te) => if te >= end + 1 {
                            strip_simple(utf8_or_empty(s.subrange(end + 1, te)))
                        } else {
                            seq![]
                        },
                        None => seq![],
                    };
                    seq![(h, text, link_kind(h, domain))] + links_from(s, domain, end + 1)
                },
                None => links_from(s, domain, end + 1),
            }
        }
    } else {
        links_from(s, domain, i + 1)
    }
}

/// Models of a list of links.
pub open spec fn link_views(v: Seq<(Vec<u8>, Vec<u8>, Vec<u8>)>) -> Seq<(Seq<u8>, Seq<u8>, Seq<u8>)> {
    v.map_values(|l: (Vec<u8>, Vec<u8>, Vec<u8>)| (l.0@, l.1@, l.2@))
}

/// The links of a page's markup: `(href, text, kind)` of each `<a ...>`
/// tag with an `href`, where kind is `internal` (same site, `/` or `#`),
/// `document` (`.pdf`, `.doc`, `.docx`) or `external`.
pub fn extract_links_from_html(html: &[u8], domain: &[u8]) -> (r: Vec<(Vec<u8>, Vec<u8>, Vec<u8>)>)
    ensures
        link_views(r@) == links_from(html@, domain@, 0),
{
    proof {
        reveal_strlit("href");
    }
    let href_name = ascii_bytes("href");
    let n = html.len();
    let mut out: Vec<(Vec<u8>, Vec<u8>, Vec<u8>)> = Vec::new();
    let mut i: usize = 0;
    assert(link_views(out@) =~= seq![]);
    while n >= 8 && i < n - 8
        invariant
            n == html@.len(),
            href_name@ == lit("href"),
            link_views(out@) + links_from(html@, domain@, i as int) == links_from(html@, domain@, 0),
        decreases n - i,
    {
        if html[i] == 60 && (html[i + 1] == 97 || html[i + 1] == 65) && (html[i + 2] == 32 || html[i + 2] == 9) {
            match crate::text::find_byte(vstd::slice::slice_subrange(html, i, n), 62) {
                Some(k) => {
                    let ghost sub = html@.subrange(i as int, n as int);
                    proof {
                        crate::text::lemma_find_from(sub, 62, 0);
                        lemma_find_from_shift(html@, 62, i as int);
                    }
                    let end = i + k;
                    let tag_bytes = vstd::slice::slice_subrange(html, i, end + 1);
                    let tag: &[u8] = if crate::text::is_utf8(tag_bytes) {
                        tag_bytes
                    } else {
                        vstd::slice::slice_subrange(html, 0, 0)
                    };
                    assert(tag@ == utf8_or_empty(html@.subrange(i as int, end + 1)));
                    match extract_attr(tag, href_name.as_slice()) {
                        Some(h) => {
                            let text = match find_close_a_exec(html, end + 1) {
                                Some(te) => {
                                    proof {
                                        lemma_find_close_a(html@, end + 1);
                                    }
                                    let raw = vstd::slice::slice_subrange(html, end + 1, te);
                                    let rawc: &[u8] = if crate::text::is_utf8(raw) {
                                        raw
                                    } else {
                                        vstd::slice::slice_subrange(html, 0, 0)
                                    };
                                    assert(rawc@ == utf8_or_empty(html@.subrange(end + 1, te as int)));
                                    strip_tags_simple(rawc)
                                },
                                None => Vec::new(),
                            };
                            let kind = link_kind_exec(h.as_slice(), domain);
                            let ghost o0 = link_views(out@);
                            let ghost item = (h@, text@, kind@);
                            out.push((h, text, kind));
                            assert(link_views(out@) =~= o0.push(item));
                            assert(o0.push(item) + links_from(html@, domain@, end + 1) =~= o0 + (seq![item]
                                + links_from(html@, domain@, end + 1)));
                        },
                        None => {},
                    }
                    i = end + 1;
                    continue;
                },
                None => {
                    proof {
                        crate::text::lemma_find_from(html@.subrange(i as int, n as int), 62, 0);
                        lemma_find_from_shift(html@, 62, i as int);
                    }
                },
            }
        }
        i = i + 1;
    }
    assert(links_from(html@, domain@, i as int) =~= seq![]);
    assert(link_views(out@) + seq![] =~= link_views(out@));
    out
}

/// Searching from `i` finds what searching the tail `s[i..]` finds, shifted.
proof fn lemma_find_from_shift(s: Seq<u8>, b: u8, i: int)
    requires
        0 <= i <= s.len(),
    ensures
        match crate::text::find_from(s.subrange(i, s.len() as int), b, 0) {
            Some(k) => crate::text::find_from(s, b, i) == Some(i + k),
            None => crate::text::find_from(s, b, i) is None,
        },
    decreases s.len() - i,
{
    let t = s.subrange(i, s.len() as int);
    crate::text::lemma_find_from(t, b, 0);
    crate::text::lemma_find_from(s, b, i);
    match crate::text::find_from(s, b, i) {
        Some(j) => {
            assert(t[j - i] == b);
            match crate::text::find_from(t, b, 0) {
                Some(k) => {
                    assert(s[i + k] == t[k]);
                    if k < j - i {
                        assert(s[i + k] != b);
                    }
                    if k > j - i {
                        assert(t[j - i] != b);
                    }
                },
                None => {
                    assert(t[j - i] != b);
                },
            }
        },
        None => {
            match crate::text::find_from(t, b, 0) {
                Some(k) => {
                    assert(s[i + k] == t[k]);
                },
                None => {},
            }
        },
    }
}

// ---------------------------------------------------------------------
// Page cache
// ---------------------------------------------------------------------

/// The 32-bit hash of a URL that names its cache file:
/// `h = h * 31 + byte`, wrapping.
pub open spec fn url_hash(s: Seq<u8>) -> u32
    decreases s.len(),
{
    if s.len() == 0 {
        0
    } else {
        ((url_hash(s.drop_last()) as nat * 31 + s.last() as nat) % 0x1_0000_0000) as u32
    }
}

/// Eight lowercase hex digits of a `u32`.
pub open spec fn hex8(h: u32) -> Seq<u8> {
    Seq::new(8, |k: int| hex_char(((h as nat / pow16((7 - k) as nat)) % 16) as u8))
}

pub open spec fn pow16(n: nat) -> nat
    decreases n,
{
    if n == 0 {
        1
    } else {
        16 * pow16((n - 1) as nat)
    }
}

pub open spec fn hex_char(d: u8) -> u8 {
    if d < 10 {
        (48 + d) as u8
    } else {
        (87 + d) as u8
    }
}

/// Where the page of a URL is cached.
pub open spec fn cache_path_of(url: Seq<u8>) -> Seq<u8> {
    lit("\\palace\\cache\\page_") + hex8(url_hash(url)) + lit(".txt")
}

/// The page cache kept on disk under `\palace\cache\`.
pub struct WebCache;

impl WebCache {
    /// The cache file of a URL: `\palace\cache\page_XXXXXXXX.txt`, named by
    /// the URL's hash.
    pub fn cache_path(url: &[u8]) -> (r: Vec<u8>)
        ensures
            r@ == cache_path_of(url@),
    {
        proof {
            reveal_strlit("\\palace\\cache\\page_");
            reveal_strlit(".txt");
        }
        let mut h: u32 = 0;
        let mut i: usize = 0;
        while i < url.len()
            invariant
                0 <= i <= url@.len(),
                h == url_hash(url@.subrange(0, i as int)),
            decreases url.len() - i,
        {
            assert(url@.subrange(0, i + 1).drop_last() =~= url@.subrange(0, i as int));
            let prod: u64 = (h as u64) * 31 + (url[i] as u64);
            h = (prod % 0x1_0000_0000) as u32;
            i = i + 1;
        }
        assert(url@.subrange(0, i as int) =~= url@);
        let mut out = ascii_bytes("\\palace\\cache\\page_");
        let ghost base = out@;
        let mut k: usize = 0;
        let mut div: u32 = 0x1000_0000;
        assert(pow16(7) == 0x1000_0000) by {
            reveal_with_fuel(pow16, 8);
        }
        while k < 8
            invariant
                0 <= k <= 8,
                k < 8 ==> div as nat == pow16((7 - k) as nat),
                div > 0,
                out@ == base + hex8(h).subrange(0, k as int),
            decreases 8 - k,
        {
            let d = ((h / div) % 16) as u8;
            out.push(if d < 10 {
                48 + d
            } else {
                87 + d
            });
            assert(hex8(h).subrange(0, k + 1) =~= hex8(h).subrange(0, k as int).push(hex_char(d)));
            if k < 7 {
                assert(pow16((7 - k) as nat) == 16 * pow16((7 - (k + 1)) as nat));
                div = div / 16;
            }
            k = k + 1;
        }
        assert(hex8(h).subrange(0, 8) =~= hex8(h));
        push_all(&mut out, ascii_bytes(".txt").as_slice());
        out
    }
}

// ---------------------------------------------------------------------
// Feeds
// ---------------------------------------------------------------------

/// The text between the first `<tag>` and the next `</tag>`.
pub open spec fn tag_inner(xml: Seq<u8>, tag: Seq<u8>) -> Option<Seq<u8>> {
    let open = seq![60u8] + tag + seq![62u8];
    let close = seq![60u8, 47u8] + tag + seq![62u8];
    match crate::text::find_sub_from(xml, open, 0) {
        None => None,
        Some(a) => {
            let st = a + open.len();
            match crate::text::find_sub_from(xml, close, st) {
                None => None,
                Some(e) => Some(xml.subrange(st, e)),
            }
        },
    }
}

/// The value of `attr="..."` in the first `<element` tag.
pub open spec fn element_attr(xml: Seq<u8>, element: Seq<u8>, attr: Seq<u8>) -> Option<Seq<u8>> {
    match crate::text::find_sub_from(xml, seq![60u8] + element, 0) {
        None => None,
        Some(es) => match crate::text::find_from(xml, 62, es) {
            None => None,
            Some(te) => {
                let tag = xml.subrange(es, te + 1);
                let key = attr + lit("=\"");
                match crate::text::find_sub_from(tag, key, 0) {
                    None => None,
                    Some(k) => {
                        let vs = k + key.len();
                        match crate::text::find_from(tag, 34, vs) {
                            None => None,
                            Some(ve) => Some(tag.subrange(vs, ve)),
                        }
                    },
                }
            },
        },
    }
}

/// Text with a `<![CDATA[...]]>` wrapper removed (and trimmed).
pub open spec fn strip_cdata_spec(s: Seq<u8>) -> Seq<u8> {
    let t = utrim(s);
    if t.len() >= 12 && crate::text::has_prefix(t, lit("<![CDATA[")) && crate::text::has_suffix(t, lit("]]>")) {
        utrim(t.subrange(9, t.len() - 3))
    } else {
        t
    }
}

/// A feed entry: title, link, summary and publication time.
pub type FeedItem = (Seq<u8>, Seq<u8>, Seq<u8>, Seq<u8>);

pub open spec fn inner_or_empty(xml: Seq<u8>, tag: Seq<u8>) -> Seq<u8> {
    match tag_inner(xml, tag) {
        Some(t) => t,
        None => seq![],
    }
}

/// An RSS `<item>` block.
pub open spec fn rss_item(block: Seq<u8>) -> FeedItem {
    (
        strip_cdata_spec(utrim(inner_or_empty(block, lit("title")))),
        utrim(inner_or_empty(block, lit("link"))),
        strip_cdata_spec(utrim(inner_or_empty(block, lit("description")))),
        utrim(inner_or_empty(block, lit("pubDate"))),
    )
}

/// An Atom `<entry>` block.
pub open spec fn atom_item(block: Seq<u8>) -> FeedItem {
    (
        strip_cdata_spec(utrim(inner_or_empty(block, lit("title")))),
        match element_attr(block, lit("link"), lit("href")) {
            Some(h) => h,
            None => seq![],
        },
        strip_cdata_spec(utrim(inner_or_empty(block, lit("summary")))),
        utrim(
            match tag_inner(block, lit("published")) {
                Some(t) => t,
                None => inner_or_empty(block, lit("updated")),
            },
        ),
    )
}

/// Up to `max` blocks that open with `open` and end with `close`, from
/// `pos` on, each read by `atom` (Atom) or as RSS.
pub open spec fn feed_blocks(xml: Seq<u8>, open: Seq<u8>, close: Seq<u8>, atom: bool, max: nat, pos: int) -> Seq<FeedItem>
    decreases max,
{
    if max == 0 || pos < 0 || pos >= xml.len() {
        seq![]
    } else {
        match crate::text::find_sub_from(xml, open, pos) {
            None => seq![],
            Some(o) => match crate::text::find_sub_from(xml, close, o) {
                None => seq![],
                Some(c) => {
                    let block = xml.subrange(o, c + close.len());
                    seq![if atom { atom_item(block) } else { rss_item(block) }] + feed_blocks(
                        xml,
                        open,
                        close,
                        atom,
                        (max - 1) as nat,
                        c + close.len(),
                    )
                },
            },
        }
    }
}

/// A feed's title and entries: Atom when it has an `<entry`, else RSS.
pub open spec fn parse_feed(xml: Seq<u8>, max: nat) -> (Seq<u8>, Seq<FeedItem>) {
    let atom = crate::text::find_sub_from(xml, lit("<entry"), 0) is Some;
    (
        inner_or_empty(xml, lit("title")),
        if atom {
            feed_blocks(xml, lit("<entry"), lit("</entry>"), true, max, 0)
        } else {
            feed_blocks(xml, lit("<item"), lit("</item>"), false, max, 0)
        },
    )
}

fn tag_inner_exec(xml: &[u8], tag: &str) -> (r: Vec<u8>)
    requires
        tag.is_ascii(),
    ensures
        r@ == inner_or_empty(xml@, lit(tag)),
{
    let mut open: Vec<u8> = vec![60u8];
    push_all(&mut open, ascii_bytes(tag).as_slice());
    open.push(62);
    let mut close: Vec<u8> = vec![60u8, 47u8];
    push_all(&mut close, ascii_bytes(tag).as_slice());
    close.push(62);
    assert(open@ =~= seq![60u8] + lit(tag) + seq![62u8]);
    assert(close@ =~= seq![60u8, 47u8] + lit(tag) + seq![62u8]);
    let _n = xml.len();
    match crate::text::find_sub(xml, open.as_slice(), 0) {
        None => Vec::new(),
        Some(a) => {
            proof {
                crate::text::lemma_find_sub_from(xml@, open@, 0);
            }
            let st = a + open.len();
            match crate::text::find_sub(xml, close.as_slice(), st) {
                None => Vec::new(),
                Some(e) => {
                    proof {
                        crate::text::lemma_find_sub_from(xml@, close@, st as int);
                    }
                    crate::text::to_vec(vstd::slice::slice_subrange(xml, st, e))
                },
            }
        },
    }
}

fn tag_inner_opt(xml: &[u8], tag: &str) -> (r: Option<Vec<u8>>)
    requires
        tag.is_ascii(),
    ensures
        match r {
            Some(v) => tag_inner(xml@, lit(tag)) == Some(v@),
            None => tag_inner(xml@, lit(tag)) is None,
        },
{
    let mut open: Vec<u8> = vec![60u8];
    push_all(&mut open, ascii_bytes(tag).as_slice());
    open.push(62);
    let mut close: Vec<u8> = vec![60u8, 47u8];
    push_all(&mut close, ascii_bytes(tag).as_slice());
    close.push(62);
    assert(open@ =~= seq![60u8] + lit(tag) + seq![62u8]);
    assert(close@ =~= seq![60u8, 47u8] + lit(tag) + seq![62u8]);
    let _n = xml.len();
    match crate::text::find_sub(xml, open.as_slice(), 0) {
        None => None,
        Some(a) => {
            proof {
                crate::text::lemma_find_sub_from(xml@, open@, 0);
            }
            let st = a + open.len();
            match crate::text::find_sub(xml, close.as_slice(), st) {
                None => None,
                Some(e) => {
                    proof {
                        crate::text::lemma_find_sub_from(xml@, close@, st as int);
                    }
                    Some(crate::text::to_vec(vstd::slice::slice_subrange(xml, st, e)))
                },
            }
        },
    }
}

fn element_attr_exec(xml: &[u8], element: &str, attr: &str) -> (r: Vec<u8>)
    requires
        element.is_ascii(),
        attr.is_ascii(),
    ensures
        r@ == (match element_attr(xml@, lit(element), lit(attr)) {
            Some(h) => h,
            None => seq![],
        }),
{
    proof {
        reveal_strlit("=\"");
    }
    let mut open: Vec<u8> = vec![60u8];
    push_all(&mut open, ascii_bytes(element).as_slice());
    assert(open@ =~= seq![60u8] + lit(element));
    let es = match crate::text::find_sub(xml, open.as_slice(), 0) {
        None => return Vec::new(),
        Some(x) => x,
    };
    proof {
        crate::text::lemma_find_sub_from(xml@, open@, 0);
    }
    let _n = xml.len();
    let te = match find_byte_from(xml, 62, es) {
        None => return Vec::new(),
        Some(x) => x,
    };
    let tag = vstd::slice::slice_subrange(xml, es, te + 1);
    let mut key = ascii_bytes(attr);
    push_all(&mut key, ascii_bytes("=\"").as_slice());
    let k = match crate::text::find_sub(tag, key.as_slice(), 0) {
        None => return Vec::new(),
        Some(x) => x,
    };
    proof {
        crate::text::lemma_find_sub_from(tag@, key@, 0);
    }
    let vs = k + key.len();
    match find_byte_from(tag, 34, vs) {
        None => Vec::new(),
        Some(ve) => crate::text::to_vec(vstd::slice::slice_subrange(tag, vs, ve)),
    }
}

/// Position of the first `b` at or after `start`.
fn find_byte_from(s: &[u8], b: u8, start: usize) -> (r: Option<usize>)
    ensures
        match r {
            Some(j) => crate::text::find_from(s@, b, start as int) == Some(j as int) && start <= j < s@.len(),
            None => crate::text::find_from(s@, b, start as int) is None,
        },
{
    let mut i = start;
    while i < s.len()
        invariant
            start <= i,
            crate::text::find_from(s@, b, start as int) == crate::text::find_from(s@, b, i as int),
        decreases s@.len() - i,
    {
        if s[i] == b {
            return Some(i);
        }
        i = i + 1;
    }
    None
}

fn strip_cdata(s: &[u8]) -> (r: Vec<u8>)
    ensures
        r@ == strip_cdata_spec(s@),
{
    proof {
        reveal_strlit("<![CDATA[");
        reveal_strlit("]]>");
    }
    let t = utrim_bytes(s);
    if t.len() >= 12 && crate::text::starts_with(t, ascii_bytes("<![CDATA[").as_slice()) && crate::text::ends_with(
        t,
        ascii_bytes("]]>").as_slice(),
    ) {
        crate::text::to_vec(utrim_bytes(vstd::slice::slice_subrange(t, 9, t.len() - 3)))
    } else {
        crate::text::to_vec(t)
    }
}

fn rss_item_exec(block: &[u8]) -> (r: (Vec<u8>, Vec<u8>, Vec<u8>, Vec<u8>))
    ensures
        (r.0@, r.1@, r.2@, r.3@) == rss_item(block@),
{
    proof {
        reveal_strlit("title");
        reveal_strlit("link");
        reveal_strlit("description");
        reveal_strlit("pubDate");
    }
    let title = tag_inner_exec(block, "title");
    let link = tag_inner_exec(block, "link");
    let desc = tag_inner_exec(block, "description");
    let date = tag_inner_exec(block, "pubDate");
    (
        strip_cdata(utrim_bytes(title.as_slice())),
        crate::text::to_vec(utrim_bytes(link.as_slice())),
        strip_cdata(utrim_bytes(desc.as_slice())),
        crate::text::to_vec(utrim_bytes(date.as_slice())),
    )
}

fn atom_item_exec(block: &[u8]) -> (r: (Vec<u8>, Vec<u8>, Vec<u8>, Vec<u8>))
    ensures
        (r.0@, r.1@, r.2@, r.3@) == atom_item(block@),
{
    proof {
        reveal_strlit("title");
        reveal_strlit("link");
        reveal_strlit("href");
        reveal_strlit("summary");
        reveal_strlit("published");
        reveal_strlit("updated");
    }
    let title = tag_inner_exec(block, "title");
    let link = element_attr_exec(block, "link", "href");
    let summary = tag_inner_exec(block, "summary");
    let published = match tag_inner_opt(block, "published") {
        Some(t) => t,
        None => tag_inner_exec(block, "updated"),
    };
    (
        strip_cdata(utrim_bytes(title.as_slice())),
        link,
        strip_cdata(utrim_bytes(summary.as_slice())),
        crate::text::to_vec(utrim_bytes(published.as_slice())),
    )
}

/// Models of feed entries.
pub open spec fn item_views(v: Seq<(Vec<u8>, Vec<u8>, Vec<u8>, Vec<u8>)>) -> Seq<FeedItem> {
    v.map_values(|x: (Vec<u8>, Vec<u8>, Vec<u8>, Vec<u8>)| (x.0@, x.1@, x.2@, x.3@))
}

fn feed_blocks_exec(xml: &[u8], open: &[u8], close: &[u8], atom: bool, max: usize) -> (r: Vec<(Vec<u8>, Vec<u8>, Vec<u8>, Vec<u8>)>)
    ensures
        item_views(r@) == feed_blocks(xml@, open@, close@, atom, max as nat, 0),
{
    let mut out: Vec<(Vec<u8>, Vec<u8>, Vec<u8>, Vec<u8>)> = Vec::new();
    let mut pos: usize = 0;
    let mut left: usize = max;
    assert(item_views(out@) =~= seq![]);
    while left > 0 && pos < xml.len()
        invariant
            item_views(out@) + feed_blocks(xml@, open@, close@, atom, left as nat, pos as int) == feed_blocks(
                xml@,
                open@,
                close@,
                atom,
                max as nat,
                0,
            ),
        decreases left,
    {
        let o = match crate::text::find_sub(xml, open, pos) {
            Some(x) => x,
            None => {
                assert(item_views(out@) + seq![] =~= item_views(out@));
                return out;
            },
        };
        proof {
            crate::text::lemma_find_sub_from(xml@, open@, pos as int);
        }
        let c = match crate::text::find_sub(xml, close, o) {
            Some(x) => x,
            None => {
                assert(item_views(out@) + seq![] =~= item_views(out@));
                return out;
            },
        };
        proof {
            crate::text::lemma_find_sub_from(xml@, close@, o as int);
        }
        let block = vstd::slice::slice_subrange(xml, o, c + close.len());
        let item = if atom {
            atom_item_exec(block)
        } else {
            rss_item_exec(block)
        };
        let ghost o0 = item_views(out@);
        let ghost iv = (item.0@, item.1@, item.2@, item.3@);
        out.push(item);
        assert(item_views(out@) =~= o0.push(iv));
        assert(o0.push(iv) + feed_blocks(xml@, open@, close@, atom, (left - 1) as nat, c + close@.len()) =~= o0 + (
        seq![iv] + feed_blocks(xml@, open@, close@, atom, (left - 1) as nat, c + close@.len())));
        pos = c + close.len();
        left = left - 1;
    }
    assert(item_views(out@) + seq![] =~= item_views(out@));
    out
}

/// The title and up to `max` entries of an RSS or Atom feed.
pub fn parse_feed_exec(xml: &[u8], max: usize) -> (r: (Vec<u8>, Vec<(Vec<u8>, Vec<u8>, Vec<u8>, Vec<u8>)>))
    ensures
        (r.0@, item_views(r.1@)) == parse_feed(xml@, max as nat),
{
    proof {
        reveal_strlit("<entry");
        reveal_strlit("</entry>");
        reveal_strlit("<item");
        reveal_strlit("</item>");
        reveal_strlit("title");
    }
    let title = tag_inner_exec(xml, "title");
    let entry = ascii_bytes("<entry");
    if crate::text::find_sub(xml, entry.as_slice(), 0).is_some() {
        (title, feed_blocks_exec(xml, entry.as_slice(), ascii_bytes("</entry>").as_slice(), true, max))
    } else {
        (title, feed_blocks_exec(xml, ascii_bytes("<item").as_slice(), ascii_bytes("</item>").as_slice(), false, max))
    }
}

// ---------------------------------------------------------------------
// Tool requests and replies
// ---------------------------------------------------------------------

/// The refusal of a call without a `url` string.
pub open spec fn missing_url(call_id: Seq<u8>) -> ResultModel {
    failure_model(call_id, lit("invalid_args"), lit("missing 'url'"), false)
}

/// The refusal of a URL that is neither `http://` nor `https://`.
pub open spec fn bad_scheme(call_id: Seq<u8>) -> ResultModel {
    failure_model(call_id, lit("invalid_args"), lit("only http:// and https:// URLs are supported"), false)
}

pub open spec fn is_web_url(u: Seq<u8>) -> bool {
    crate::text::has_prefix(u, lit("http://")) || crate::text::has_prefix(u, lit("https://"))
}

/// A whole-number argument read as a count (negative reads as 0, larger
/// than `usize` as `usize::MAX`), or the default when absent or not a
/// plain number.
pub open spec fn count_arg(args: JModel, key: Seq<u8>, default: nat) -> nat {
    match jget(args, key) {
        Some(JModel::Number(t)) => match num_ttl(t) {
            Some(v) => if v > usize::MAX {
                usize::MAX as nat
            } else {
                v as nat
            },
            None => default,
        },
        _ => default,
    }
}

pub(crate) fn count_arg_exec(args: &JsonValue, key: &[u8], default: usize) -> (r: usize)
    ensures
        r == count_arg(args@, key@, default as nat),
{
    match args.get(key) {
        Some(JsonValue::Number(t)) => match number_ttl(t.as_slice()) {
            Some(v) => if v > usize::MAX as u64 {
                usize::MAX
            } else {
                v as usize
            },
            None => default,
        },
        _ => default,
    }
}

fn url_of<'a>(args: &'a JsonValue, call_id: &[u8]) -> (r: Result<&'a [u8], ToolResult>)
    ensures
        match r {
            Ok(u) => str_at(args@, lit("url")) == Some(u@),
            Err(e) => str_at(args@, lit("url")) is None && e@ == missing_url(call_id@),
        },
{
    proof {
        reveal_strlit("url");
        reveal_strlit("invalid_args");
        reveal_strlit("missing 'url'");
    }
    match args.get(ascii_bytes("url").as_slice()) {
        Some(v) => match v.as_str() {
            Some(u) => Ok(u),
            None => Err(
                ToolResult::failure(call_id, ascii_bytes("invalid_args").as_slice(), ascii_bytes("missing 'url'").as_slice(), false),
            ),
        },
        None => Err(
            ToolResult::failure(call_id, ascii_bytes("invalid_args").as_slice(), ascii_bytes("missing 'url'").as_slice(), false),
        ),
    }
}

fn check_web_url(u: &[u8], call_id: &[u8]) -> (r: Result<(), ToolResult>)
    ensures
        match r {
            Ok(_) => is_web_url(u@),
            Err(e) => !is_web_url(u@) && e@ == bad_scheme(call_id@),
        },
{
    proof {
        reveal_strlit("http://");
        reveal_strlit("https://");
        reveal_strlit("invalid_args");
        reveal_strlit("only http:// and https:// URLs are supported");
    }
    if crate::text::starts_with(u, ascii_bytes("http://").as_slice()) || crate::text::starts_with(
        u,
        ascii_bytes("https://").as_slice(),
    ) {
        Ok(())
    } else {
        Err(
            ToolResult::failure(
                call_id,
                ascii_bytes("invalid_args").as_slice(),
                ascii_bytes("only http:// and https:// URLs are supported").as_slice(),
                false,
            ),
        )
    }
}

/// `web.get_page` before any fetch: the URL and token budget (1024 by
/// default), or the refusal of a missing or non-web URL. The page is then
/// read with [`page_start`] and [`page_after`].
pub fn get_page_request(args: &JsonValue, call_id: &[u8]) -> (r: Result<(Vec<u8>, usize), ToolResult>)
    ensures
        match str_at(args@, lit("url")) {
            None => r matches Err(e) && e@ == missing_url(call_id@),
            Some(u) => if !is_web_url(u) {
                r matches Err(e) && e@ == bad_scheme(call_id@)
            } else {
                r matches Ok(p) && p.0@ == u && p.1 == count_arg(args@, lit("max_tokens"), 1024)
            },
        },
{
    proof {
        reveal_strlit("max_tokens");
    }
    let u = match url_of(args, call_id) {
        Ok(u) => u,
        Err(e) => return Err(e),
    };
    match check_web_url(u, call_id) {
        Ok(_) => {},
        Err(e) => return Err(e),
    }
    let max = count_arg_exec(args, ascii_bytes("max_tokens").as_slice(), 1024);
    Ok((crate::text::to_vec(u), max))
}

/// What `web.read_llms` does next: fetch a URL, or reply.
#[derive(Debug)]
pub enum LlmsStep {
    Fetch(Vec<u8>, PageSource),
    Reply(ToolResult),
}

/// `web.read_llms` before any fetch: the refusal of a missing URL, or the
/// fetch of the site's `llms.txt`.
pub fn read_llms_request(args: &JsonValue, call_id: &[u8]) -> (r: LlmsStep)
    ensures
        match str_at(args@, lit("url")) {
            None => r matches LlmsStep::Reply(e) && e@ == missing_url(call_id@),
            Some(u) => r matches LlmsStep::Fetch(f, src) && f@ == site_file(u, lit("llms.txt")) && src
                == PageSource::LlmsTxt,
        },
{
    proof {
        reveal_strlit("llms.txt");
    }
    match url_of(args, call_id) {
        Ok(u) => LlmsStep::Fetch(site_file_exec(u, "llms.txt"), PageSource::LlmsTxt),
        Err(e) => LlmsStep::Reply(e),
    }
}

/// `web.read_llms` after a fetch (`None` when it failed): the text of a
/// non-empty `llms.txt`, else `llm.txt`, else null.
pub fn read_llms_after(call_id: &[u8], url: &[u8], source: PageSource, fetched: Option<&[u8]>) -> (r: LlmsStep)
    ensures
        fetched is Some && utf8_lossy(fetched->0@).len() > 0 ==> (r matches LlmsStep::Reply(t) && t@ == success_model(
            call_id@,
            JModel::Str(utf8_lossy(fetched->0@)),
            0,
        )),
        !(fetched is Some && utf8_lossy(fetched->0@).len() > 0) ==> (if source == PageSource::LlmsTxt {
            (r matches LlmsStep::Fetch(f, src) && f@ == site_file(url@, lit("llm.txt")) && src == PageSource::LlmTxt)
        } else {
            (r matches LlmsStep::Reply(t) && t@ == success_model(call_id@, JModel::Null, 0))
        }),
{
    proof {
        reveal_strlit("llm.txt");
    }
    let text = match fetched {
        Some(d) => crate::text::lossy_text(d),
        None => Vec::new(),
    };
    if fetched.is_some() && text.len() > 0 {
        LlmsStep::Reply(ToolResult::success(call_id, JsonValue::Str(text), 0))
    } else if source == PageSource::LlmsTxt {
        LlmsStep::Fetch(site_file_exec(url, "llm.txt"), PageSource::LlmTxt)
    } else {
        LlmsStep::Reply(ToolResult::success(call_id, JsonValue::Null, 0))
    }
}

/// The JSON of a link.
pub open spec fn link_json(l: (Seq<u8>, Seq<u8>, Seq<u8>)) -> JModel {
    JModel::Object(
        jinsert(jinsert(jinsert(seq![], lit("url"), JModel::Str(l.0)), lit("text"), JModel::Str(l.1)), lit("type"), JModel::Str(l.2)),
    )
}

/// `web.extract_links` before the fetch: the URL to fetch, or the refusal
/// of a missing or non-web URL.
pub fn extract_links_request(args: &JsonValue, call_id: &[u8]) -> (r: Result<Vec<u8>, ToolResult>)
    ensures
        match str_at(args@, lit("url")) {
            None => r matches Err(e) && e@ == missing_url(call_id@),
            Some(u) => if !is_web_url(u) {
                r matches Err(e) && e@ == bad_scheme(call_id@)
            } else {
                r matches Ok(v) && v@ == u
            },
        },
{
    let u = match url_of(args, call_id) {
        Ok(u) => u,
        Err(e) => return Err(e),
    };
    match check_web_url(u, call_id) {
        Ok(_) => Ok(crate::text::to_vec(u)),
        Err(e) => Err(e),
    }
}

/// `web.extract_links` after fetching `url`: the page's links, or the
/// network error (retryable).
pub fn extract_links_reply(call_id: &[u8], url: &[u8], fetched: Result<&[u8], NetError>) -> (r: ToolResult)
    ensures
        match fetched {
            Ok(d) => r@ == success_model(
                call_id@,
                JModel::Array(links_from(utf8_lossy(d@), url_domain(url@), 0).map_values(|l: (Seq<u8>, Seq<u8>, Seq<u8>)| link_json(l))),
                0,
            ),
            Err(e) => r@ == failure_model(call_id@, lit("net_error"), net_error_bytes(e), true),
        },
{
    proof {
        reveal_strlit("net_error");
        reveal_strlit("url");
        reveal_strlit("text");
        reveal_strlit("type");
    }
    match fetched {
        Ok(d) => {
            let html = crate::text::lossy_text(d);
            let domain = extract_domain(url);
            let links = extract_links_from_html(html.as_slice(), domain.as_slice());
            let ghost lv = link_views(links@);
            let mut arr: Vec<JsonValue> = Vec::new();
            let mut i: usize = 0;
            while i < links.len()
                invariant
                    0 <= i <= links@.len(),
                    lv == link_views(links@),
                    crate::json::jviews(arr@) == lv.subrange(0, i as int).map_values(|l: (Seq<u8>, Seq<u8>, Seq<u8>)| link_json(l)),
                decreases links.len() - i,
            {
                proof {
                    reveal_strlit("url");
                    reveal_strlit("text");
                    reveal_strlit("type");
                }
                let mut m: Vec<(Vec<u8>, JsonValue)> = Vec::new();
                assert(jentries(m@) =~= seq![]);
                object_insert(&mut m, ascii_bytes("url"), JsonValue::Str(crate::text::to_vec(links[i].0.as_slice())));
                object_insert(&mut m, ascii_bytes("text"), JsonValue::Str(crate::text::to_vec(links[i].1.as_slice())));
                object_insert(&mut m, ascii_bytes("type"), JsonValue::Str(crate::text::to_vec(links[i].2.as_slice())));
                assert(lv[i as int] == (links@[i as int].0@, links@[i as int].1@, links@[i as int].2@));
                assert(JsonValue::Object(m)@ == link_json(lv[i as int]));
                let ghost a0 = arr@;
                arr.push(JsonValue::Object(m));
                assert(arr@.drop_last() =~= a0);
                assert(lv.subrange(0, i + 1).map_values(|l: (Seq<u8>, Seq<u8>, Seq<u8>)| link_json(l)) =~= lv.subrange(0, i as int).map_values(
                    |l: (Seq<u8>, Seq<u8>, Seq<u8>)| link_json(l),
                ).push(link_json(lv[i as int])));
                i = i + 1;
            }
            assert(lv.subrange(0, i as int) =~= lv);
            ToolResult::success(call_id, JsonValue::Array(arr), 0)
        },
        Err(e) => ToolResult::failure(call_id, ascii_bytes("net_error").as_slice(), e.message().as_slice(), true),
    }
}

/// `web.cache_read` after reading the cache file (`None` when there is
/// none): its text, or null.
pub fn cache_read_reply(call_id: &[u8], cached: Option<&[u8]>) -> (r: ToolResult)
    ensures
        r@ == success_model(
            call_id@,
            match cached {
                Some(d) => JModel::Str(utf8_lossy(d@)),
                None => JModel::Null,
            },
            0,
        ),
{
    match cached {
        Some(d) => ToolResult::success(call_id, JsonValue::Str(crate::text::lossy_text(d)), 0),
        None => ToolResult::success(call_id, JsonValue::Null, 0),
    }
}

/// The URL argument of `web.cache_read` and `web.cache_invalidate`, or
/// the refusal of a missing one.
pub fn cache_request(args: &JsonValue, call_id: &[u8]) -> (r: Result<Vec<u8>, ToolResult>)
    ensures
        match str_at(args@, lit("url")) {
            None => r matches Err(e) && e@ == missing_url(call_id@),
            Some(u) => r matches Ok(v) && v@ == u,
        },
{
    match url_of(args, call_id) {
        Ok(u) => Ok(crate::text::to_vec(u)),
        Err(e) => Err(e),
    }
}

/// The refusal of a feed call without a non-empty `url`.
pub open spec fn feed_url_required(call_id: Seq<u8>) -> ResultModel {
    failure_model(call_id, lit("invalid_args"), lit("url is required"), false)
}

/// `web.feed` before the fetch: the URL and how many entries to return
/// (20 by default, kept within 1 to 50), or the refusal of a missing or
/// empty URL.
pub fn feed_request(args: &JsonValue, call_id: &[u8]) -> (r: Result<(Vec<u8>, usize), ToolResult>)
    ensures
        match str_at(args@, lit("url")) {
            Some(u) => if u.len() > 0 {
                r matches Ok(p) && p.0@ == u && p.1 as nat == (if count_arg(args@, lit("max_items"), 20) > 50 {
                    50
                } else if count_arg(args@, lit("max_items"), 20) < 1 {
                    1
                } else {
                    count_arg(args@, lit("max_items"), 20)
                })
            } else {
                r matches Err(e) && e@ == feed_url_required(call_id@)
            },
            None => r matches Err(e) && e@ == feed_url_required(call_id@),
        },
{
    proof {
        reveal_strlit("url");
        reveal_strlit("max_items");
        reveal_strlit("invalid_args");
        reveal_strlit("url is required");
    }
    let u = match args.get(ascii_bytes("url").as_slice()) {
        Some(v) => match v.as_str() {
            Some(u) => if u.len() > 0 {
                Some(u)
            } else {
                None
            },
            None => None,
        },
        None => None,
    };
    match u {
        None => Err(
            ToolResult::failure(call_id, ascii_bytes("invalid_args").as_slice(), ascii_bytes("url is required").as_slice(), false),
        ),
        Some(u) => {
            let n = count_arg_exec(args, ascii_bytes("max_items").as_slice(), 20);
            let n = if n > 50 {
                50
            } else if n < 1 {
                1
            } else {
                n
            };
            Ok((crate::text::to_vec(u), n))
        },
    }
}

/// The JSON of a feed entry.
pub open spec fn item_json(it: FeedItem) -> JModel {
    JModel::Object(
        jinsert(
            jinsert(jinsert(jinsert(seq![], lit("title"), JModel::Str(it.0)), lit("url"), JModel::Str(it.1)), lit("summary"), JModel::Str(it.2)),
            lit("published_at"),
            JModel::Str(it.3),
        ),
    )
}

/// The JSON of a read feed.
pub open spec fn feed_json(url: Seq<u8>, xml: Seq<u8>, max: nat) -> JModel {
    let (title, items) = parse_feed(xml, max);
    JModel::Object(
        jinsert(
            jinsert(
                jinsert(jinsert(seq![], lit("feed_title"), JModel::Str(title)), lit("feed_url"), JModel::Str(url)),
                lit("items"),
                JModel::Array(items.map_values(|it: FeedItem| item_json(it))),
            ),
            lit("item_count"),
            JModel::Number(dec(items.len())),
        ),
    )
}

/// `web.feed` after fetching the feed's text: its title and entries, or
/// the fetch error (retryable).
pub fn feed_reply(call_id: &[u8], url: &[u8], max_items: usize, fetched: Result<&[u8], NetError>) -> (r: ToolResult)
    ensures
        match fetched {
            Ok(x) => r@ == success_model(call_id@, feed_json(url@, x@, max_items as nat), 0),
            Err(e) => r@ == failure_model(call_id@, lit("fetch_failed"), net_error_bytes(e), true),
        },
{
    proof {
        reveal_strlit("fetch_failed");
        reveal_strlit("title");
        reveal_strlit("url");
        reveal_strlit("summary");
        reveal_strlit("published_at");
        reveal_strlit("feed_title");
        reveal_strlit("feed_url");
        reveal_strlit("items");
        reveal_strlit("item_count");
    }
    match fetched {
        Err(e) => ToolResult::failure(call_id, ascii_bytes("fetch_failed").as_slice(), e.message().as_slice(), true),
        Ok(xml) => {
            let (title, items) = parse_feed_exec(xml, max_items);
            let ghost iv = item_views(items@);
            let mut arr: Vec<JsonValue> = Vec::new();
            let mut i: usize = 0;
            while i < items.len()
                invariant
                    0 <= i <= items@.len(),
                    iv == item_views(items@),
                    crate::json::jviews(arr@) == iv.subrange(0, i as int).map_values(|it: FeedItem| item_json(it)),
                decreases items.len() - i,
            {
                proof {
                    reveal_strlit("title");
                    reveal_strlit("url");
                    reveal_strlit("summary");
                    reveal_strlit("published_at");
                }
                let mut m: Vec<(Vec<u8>, JsonValue)> = Vec::new();
                assert(jentries(m@) =~= seq![]);
                object_insert(&mut m, ascii_bytes("title"), JsonValue::Str(crate::text::to_vec(items[i].0.as_slice())));
                object_insert(&mut m, ascii_bytes("url"), JsonValue::Str(crate::text::to_vec(items[i].1.as_slice())));
                object_insert(&mut m, ascii_bytes("summary"), JsonValue::Str(crate::text::to_vec(items[i].2.as_slice())));
                object_insert(&mut m, ascii_bytes("published_at"), JsonValue::Str(crate::text::to_vec(items[i].3.as_slice())));
                assert(iv[i as int] == (items@[i as int].0@, items@[i as int].1@, items@[i as int].2@, items@[i as int].3@));
                assert(JsonValue::Object(m)@ == item_json(iv[i as int]));
                let ghost a0 = arr@;
                arr.push(JsonValue::Object(m));
                assert(arr@.drop_last() =~= a0);
                assert(iv.subrange(0, i + 1).map_values(|it: FeedItem| item_json(it)) =~= iv.subrange(0, i as int).map_values(
                    |it: FeedItem| item_json(it),
                ).push(item_json(iv[i as int])));
                i = i + 1;
            }
            assert(iv.subrange(0, i as int) =~= iv);
            let count = items.len();
            let mut m: Vec<(Vec<u8>, JsonValue)> = Vec::new();
            assert(jentries(m@) =~= seq![]);
            object_insert(&mut m, ascii_bytes("feed_title"), JsonValue::Str(title));
            object_insert(&mut m, ascii_bytes("feed_url"), JsonValue::Str(crate::text::to_vec(url)));
            object_insert(&mut m, ascii_bytes("items"), JsonValue::Array(arr));
            object_insert(&mut m, ascii_bytes("item_count"), json_u64(count as u64));
            ToolResult::success(call_id, JsonValue::Object(m), 0)
        },
    }
}

/// `net.fetch` before the fetch: the URL, or the refusal of a missing,
/// non-web or empty one (a bare scheme).
pub fn fetch_request(args: &JsonValue, call_id: &[u8]) -> (r: Result<Vec<u8>, ToolResult>)
    ensures
        match str_at(args@, lit("url")) {
            None => r matches Err(e) && e@ == missing_url(call_id@),
            Some(u) => if !is_web_url(u) {
                r matches Err(e) && e@ == bad_scheme(call_id@)
            } else if u == lit("http://") || u == lit("https://") {
                r matches Err(e) && e@ == failure_model(call_id@, lit("invalid_args"), lit("empty URL"), false)
            } else {
                r matches Ok(v) && v@ == u
            },
        },
{
    proof {
        reveal_strlit("http://");
        reveal_strlit("https://");
        reveal_strlit("invalid_args");
        reveal_strlit("empty URL");
    }
    let u = match url_of(args, call_id) {
        Ok(u) => u,
        Err(e) => return Err(e),
    };
    match check_web_url(u, call_id) {
        Ok(_) => {},
        Err(e) => return Err(e),
    }
    if crate::text::bytes_eq(u, ascii_bytes("http://").as_slice()) || crate::text::bytes_eq(u, ascii_bytes("https://").as_slice()) {
        return Err(ToolResult::failure(call_id, ascii_bytes("invalid_args").as_slice(), ascii_bytes("empty URL").as_slice(), false));
    }
    Ok(crate::text::to_vec(u))
}

/// `net.fetch` after the fetch: the body as text, or the network error
/// (retryable).
pub fn fetch_reply(call_id: &[u8], fetched: Result<&[u8], NetError>) -> (r: ToolResult)
    ensures
        match fetched {
            Ok(d) => r@ == success_model(call_id@, JModel::Str(utf8_lossy(d@)), 0),
            Err(e) => r@ == failure_model(call_id@, lit("net_error"), net_error_bytes(e), true),
        },
{
    proof {
        reveal_strlit("net_error");
    }
    match fetched {
        Ok(d) => ToolResult::success(call_id, JsonValue::Str(crate::text::lossy_text(d)), 0),
        Err(e) => ToolResult::failure(call_id, ascii_bytes("net_error").as_slice(), e.message().as_slice(), true),
    }
}

} // verus!

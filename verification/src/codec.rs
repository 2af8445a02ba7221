//! The persisted JSON record format shared by every backend: a canonical
//! printer and a parser for `Feed` and `Entry` records, with a proof that
//! parsing a printed record returns it unchanged.
//!
//! The printer emits one fixed field order with no extra whitespace;
//! strings escape `"`, `\` and control characters (as `\u00XX`); absent
//! options are `null`; blob bytes are an array of decimal numbers.

use vstd::prelude::*;
use crate::model::{
    ContentBlob, ContentBlobView, ContentKind, Entry, EntryView, Feed, FeedView, opt_string_view,
};
use crate::ids::{EntryId, FeedId, hex_digit, hex_digit_exec};
use crate::strutil::{dec_digits, i64_dec_str, i64_to_dec, push_char, u64_dec};

verus! {

// ---------------------------------------------------------------------------
// Printer specification
// ---------------------------------------------------------------------------

/// How one character appears inside a JSON string literal.
pub open spec fn esc_char(c: char) -> Seq<char> {
    if c == '"' {
        seq!['\\', '"']
    } else if c == '\\' {
        seq!['\\', '\\']
    } else if (c as u32) < 32 {
        seq![
            '\\',
            'u',
            '0',
            '0',
            hex_digit(((c as u32) >> 4) as int),
            hex_digit(((c as u32) & 0xf) as int),
        ]
    } else {
        seq![c]
    }
}

/// The escaped body of a JSON string literal.
pub open spec fn esc_str(s: Seq<char>) -> Seq<char>
    decreases s.len(),
{
    if s.len() == 0 {
        Seq::empty()
    } else {
        esc_char(s[0]) + esc_str(s.drop_first())
    }
}

/// A JSON string literal.
pub open spec fn json_string(s: Seq<char>) -> Seq<char> {
    seq!['"'] + esc_str(s) + seq!['"']
}

/// A JSON string literal or `null`.
pub open spec fn json_opt_string(o: Option<Seq<char>>) -> Seq<char> {
    match o {
        Some(s) => json_string(s),
        None => "null"@,
    }
}

/// A JSON number or `null`.
pub open spec fn json_opt_i64(o: Option<i64>) -> Seq<char> {
    match o {
        Some(v) => i64_dec_str(v as int),
        None => "null"@,
    }
}

pub open spec fn json_bool(b: bool) -> Seq<char> {
    if b {
        "true"@
    } else {
        "false"@
    }
}

/// The stable name of a blob kind.
pub open spec fn kind_str(k: ContentKind) -> Seq<char> {
    match k {
        ContentKind::Xml => "Xml"@,
        ContentKind::Json => "Json"@,
        ContentKind::Html => "Html"@,
        ContentKind::Text => "Text"@,
        ContentKind::Binary => "Binary"@,
    }
}

/// The comma-separated decimal items of a byte array.
pub open spec fn bytes_items(b: Seq<u8>) -> Seq<char>
    decreases b.len(),
{
    if b.len() == 0 {
        Seq::empty()
    } else if b.len() == 1 {
        dec_digits(b[0] as nat)
    } else {
        dec_digits(b[0] as nat) + seq![','] + bytes_items(b.drop_first())
    }
}

/// A byte array as JSON: `[` items `]`.
pub open spec fn json_bytes(b: Seq<u8>) -> Seq<char> {
    seq!['['] + bytes_items(b) + seq![']']
}

/// A content blob as JSON: `{"kind":"...","bytes":[...]}`.
pub open spec fn json_blob(b: ContentBlobView) -> Seq<char> {
    "{\"kind\":"@ + json_string(kind_str(b.kind)) + ",\"bytes\":"@ + json_bytes(b.bytes) + "}"@
}

/// A content blob as JSON, or `null`.
pub open spec fn json_opt_blob(o: Option<ContentBlobView>) -> Seq<char> {
    match o {
        Some(b) => json_blob(b),
        None => "null"@,
    }
}

/// The canonical JSON form of a feed record.
pub open spec fn feed_json(f: FeedView) -> Seq<char> {
    "{\"id\":"@ + json_string(f.id) + ",\"url\":"@ + json_string(f.url) + ",\"title\":"@
        + json_opt_string(f.title) + ",\"site_url\":"@ + json_opt_string(f.site_url)
        + ",\"etag\":"@ + json_opt_string(f.etag) + ",\"last_modified\":"@ + json_opt_string(
        f.last_modified,
    ) + ",\"active\":"@ + json_bool(f.active) + "}"@
}

/// The canonical JSON form of an entry record.
pub open spec fn entry_json(e: EntryView) -> Seq<char> {
    "{\"id\":"@ + json_string(e.id) + ",\"feed\":"@ + json_string(e.feed) + ",\"url\":"@
        + json_opt_string(e.url) + ",\"title\":"@ + json_opt_string(e.title)
        + ",\"published_ts\":"@ + json_opt_i64(e.published_ts) + ",\"updated_ts\":"@
        + json_opt_i64(e.updated_ts) + ",\"summary\":"@ + json_opt_string(e.summary)
        + ",\"content\":"@ + json_opt_blob(e.content) + "}"@
}

// ---------------------------------------------------------------------------
// Printer
// ---------------------------------------------------------------------------

proof fn lemma_esc_str_snoc(s: Seq<char>, c: char)
    ensures
        esc_str(s.push(c)) == esc_str(s) + esc_char(c),
    decreases s.len(),
{
    if s.len() == 0 {
        assert(s.push(c).drop_first() =~= Seq::<char>::empty());
        assert(s.push(c)[0] == c);
        assert(esc_str(s.push(c)) == esc_char(c) + esc_str(Seq::<char>::empty()));
        assert(esc_str(s.push(c)) =~= esc_char(c));
        assert(esc_str(s) + esc_char(c) =~= esc_char(c));
    } else {
        assert(s.push(c).drop_first() =~= s.drop_first().push(c));
        assert(s.push(c)[0] == s[0]);
        lemma_esc_str_snoc(s.drop_first(), c);
        assert(esc_str(s.push(c)) =~= esc_str(s) + esc_char(c));
    }
}

/// Append the escaped body of `s` to `out`.
fn print_esc_str(out: &mut String, s: &str)
    ensures
        final(out)@ == old(out)@ + esc_str(s@),
{
    let n = s.unicode_len();
    let mut i: usize = 0;
    while i < n
        invariant
            0 <= i <= n,
            n == s@.len(),
            out@ == old(out)@ + esc_str(s@.subrange(0, i as int)),
        decreases n - i,
    {
        let c = s.get_char(i);
        let u = c as u32;
        if c == '"' {
            push_char(out, '\\');
            push_char(out, '"');
        } else if c == '\\' {
            push_char(out, '\\');
            push_char(out, '\\');
        } else if u < 32 {
            push_char(out, '\\');
            push_char(out, 'u');
            push_char(out, '0');
            push_char(out, '0');
            assert(u >> 4 < 16 && u & 0xf < 16) by (bit_vector)
                requires
                    u < 32,
            ;
            push_char(out, hex_digit_exec((u >> 4) as u8));
            push_char(out, hex_digit_exec((u & 0xf) as u8));
        } else {
            push_char(out, c);
        }
        proof {
            let pre = s@.subrange(0, i as int);
            assert(s@.subrange(0, i + 1) =~= pre.push(s@[i as int]));
            lemma_esc_str_snoc(pre, s@[i as int]);
            assert(out@ =~= old(out)@ + esc_str(s@.subrange(0, i + 1)));
        }
        i += 1;
    }
    proof {
        assert(s@.subrange(0, n as int) =~= s@);
    }
}

/// Append the JSON string literal for `s` to `out`.
fn print_json_string(out: &mut String, s: &str)
    ensures
        final(out)@ == old(out)@ + json_string(s@),
{
    push_char(out, '"');
    print_esc_str(out, s);
    push_char(out, '"');
    proof {
        assert(out@ =~= old(out)@ + json_string(s@));
    }
}

/// Append a JSON string literal or `null`.
fn print_json_opt_string(out: &mut String, o: &Option<String>)
    ensures
        final(out)@ == old(out)@ + json_opt_string(opt_string_view(*o)),
{
    match o {
        Some(s) => print_json_string(out, s.as_str()),
        None => out.append("null"),
    }
}

/// Append a JSON number or `null`.
fn print_json_opt_i64(out: &mut String, o: &Option<i64>)
    ensures
        final(out)@ == old(out)@ + json_opt_i64(*o),
{
    match o {
        Some(v) => {
            let d = i64_to_dec(*v);
            out.append(d.as_str());
        },
        None => out.append("null"),
    }
}

/// The canonical JSON text of a feed record.
pub fn encode_feed(f: &Feed) -> (r: String)
    ensures
        r@ == feed_json(f@),
{
    let mut out = String::new();
    out.append("{\"id\":");
    print_json_string(&mut out, f.id.as_str());
    out.append(",\"url\":");
    print_json_string(&mut out, f.url.as_str());
    out.append(",\"title\":");
    print_json_opt_string(&mut out, &f.title);
    out.append(",\"site_url\":");
    print_json_opt_string(&mut out, &f.site_url);
    out.append(",\"etag\":");
    print_json_opt_string(&mut out, &f.etag);
    out.append(",\"last_modified\":");
    print_json_opt_string(&mut out, &f.last_modified);
    out.append(",\"active\":");
    if f.active {
        out.append("true");
    } else {
        out.append("false");
    }
    out.append("}");
    proof {
        assert(out@ =~= feed_json(f@));
    }
    out
}

/// Append the byte-array items, separated by commas.
fn print_bytes_items(out: &mut String, b: &Vec<u8>)
    ensures
        final(out)@ == old(out)@ + bytes_items(b@),
{
    let n = b.len();
    let mut i: usize = 0;
    while i < n
        invariant
            0 <= i <= n,
            n == b@.len(),
            out@ == old(out)@ + bytes_items(b@.subrange(0, i as int)) + (
            if 0 < i < n {
                seq![',']
            } else {
                Seq::<char>::empty()
            }),
        decreases n - i,
    {
        let d = u64_dec(b[i] as u64);
        out.append(d.as_str());
        if i + 1 < n {
            push_char(out, ',');
        }
        proof {
            let pre = b@.subrange(0, i as int);
            let pre1 = b@.subrange(0, i + 1);
            assert(pre1 =~= pre.push(b@[i as int]));
            lemma_bytes_items_snoc(pre, b@[i as int]);
            if i + 1 < n {
                assert(out@ =~= old(out)@ + bytes_items(pre1) + seq![',']);
            } else {
                assert(out@ =~= old(out)@ + bytes_items(pre1));
            }
        }
        i += 1;
    }
    proof {
        assert(b@.subrange(0, n as int) =~= b@);
        if n == 0 {
            assert(out@ =~= old(out)@ + bytes_items(b@));
        }
    }
}

proof fn lemma_bytes_items_snoc(b: Seq<u8>, x: u8)
    ensures
        b.len() == 0 ==> bytes_items(b.push(x)) == dec_digits(x as nat),
        b.len() > 0 ==> bytes_items(b.push(x)) == bytes_items(b) + seq![','] + dec_digits(
            x as nat,
        ),
    decreases b.len(),
{
    if b.len() == 0 {
        assert(b.push(x)[0] == x);
        assert(b.push(x).len() == 1);
    } else {
        assert(b.push(x).drop_first() =~= b.drop_first().push(x));
        assert(b.push(x)[0] == b[0]);
        lemma_bytes_items_snoc(b.drop_first(), x);
        if b.len() == 1 {
            assert(bytes_items(b) == dec_digits(b[0] as nat));
            assert(bytes_items(b.push(x)) == dec_digits(b[0] as nat) + seq![','] + bytes_items(
                b.drop_first().push(x),
            ));
            assert(bytes_items(b.push(x)) =~= bytes_items(b) + seq![','] + dec_digits(x as nat));
        } else {
            assert(bytes_items(b.push(x)) =~= bytes_items(b) + seq![','] + dec_digits(x as nat));
        }
    }
}

/// Append the JSON form of a content blob.
fn print_blob(out: &mut String, b: &ContentBlob)
    ensures
        final(out)@ == old(out)@ + json_blob(b@),
{
    out.append("{\"kind\":");
    match b.kind {
        ContentKind::Xml => print_json_string(out, "Xml"),
        ContentKind::Json => print_json_string(out, "Json"),
        ContentKind::Html => print_json_string(out, "Html"),
        ContentKind::Text => print_json_string(out, "Text"),
        ContentKind::Binary => print_json_string(out, "Binary"),
    }
    out.append(",\"bytes\":");
    push_char(out, '[');
    print_bytes_items(out, &b.bytes);
    push_char(out, ']');
    out.append("}");
    proof {
        assert(out@ =~= old(out)@ + json_blob(b@));
    }
}

/// Escaping changes nothing in a string with no quote, backslash or
/// control character.
proof fn lemma_esc_str_plain(s: Seq<char>)
    requires
        forall|i: int| 0 <= i < s.len() ==> s[i] != '"' && s[i] != '\\' && (s[i] as u32) >= 32,
    ensures
        esc_str(s) == s,
    decreases s.len(),
{
    if s.len() > 0 {
        assert(forall|i: int|
            0 <= i < s.drop_first().len() ==> s.drop_first()[i] == s[i + 1]);
        lemma_esc_str_plain(s.drop_first());
        assert(esc_char(s[0]) == seq![s[0]]);
        assert(esc_str(s) =~= s);
    }
}

/// The canonical JSON text of an entry record.
pub fn encode_entry(e: &Entry) -> (r: String)
    ensures
        r@ == entry_json(e@),
{
    let mut out = String::new();
    out.append("{\"id\":");
    print_json_string(&mut out, e.id.as_str());
    out.append(",\"feed\":");
    print_json_string(&mut out, e.feed.as_str());
    out.append(",\"url\":");
    print_json_opt_string(&mut out, &e.url);
    out.append(",\"title\":");
    print_json_opt_string(&mut out, &e.title);
    out.append(",\"published_ts\":");
    print_json_opt_i64(&mut out, &e.published_ts);
    out.append(",\"updated_ts\":");
    print_json_opt_i64(&mut out, &e.updated_ts);
    out.append(",\"summary\":");
    print_json_opt_string(&mut out, &e.summary);
    out.append(",\"content\":");
    match &e.content {
        Some(b) => print_blob(&mut out, b),
        None => out.append("null"),
    }
    out.append("}");
    proof {
        assert(out@ =~= entry_json(e@));
    }
    out
}


// ---------------------------------------------------------------------------
// Parser specification: each function reads a prefix of its input and
// yields the parsed value with the number of characters consumed.
// ---------------------------------------------------------------------------

/// Whether `t` begins with `lit`.
pub open spec fn starts_with(t: Seq<char>, lit: Seq<char>) -> bool {
    t.len() >= lit.len() && t.subrange(0, lit.len() as int) == lit
}

/// Consume an exact literal.
pub open spec fn p_lit(t: Seq<char>, lit: Seq<char>) -> Option<int> {
    if starts_with(t, lit) {
        Some(lit.len() as int)
    } else {
        None
    }
}

/// The value of a hex digit character, when it is one.
pub open spec fn hexval_char(c: char) -> Option<u8> {
    if 48 <= c as u32 && c as u32 <= 57 {
        Some((c as u32 - 48) as u8)
    } else if 97 <= c as u32 && c as u32 <= 102 {
        Some((10 + c as u32 - 97) as u8)
    } else if 65 <= c as u32 && c as u32 <= 70 {
        Some((10 + c as u32 - 65) as u8)
    } else {
        None
    }
}

/// The body of a JSON string literal after its opening quote: plain
/// characters and the escapes the printer emits, up to the closing quote.
pub open spec fn p_string_body(t: Seq<char>) -> Option<(Seq<char>, int)>
    decreases t.len(),
{
    if t.len() == 0 {
        None
    } else if t[0] == '"' {
        Some((Seq::empty(), 1))
    } else if t[0] == '\\' {
        if t.len() >= 2 && (t[1] == '"' || t[1] == '\\') {
            match p_string_body(t.skip(2)) {
                Some((s, c)) => Some((seq![t[1]] + s, 2 + c)),
                None => None,
            }
        } else if t.len() >= 6 && t[1] == 'u' && t[2] == '0' && t[3] == '0' && hexval_char(t[4])
            is Some && hexval_char(t[5]) is Some && hexval_char(t[4])->0 * 16 + hexval_char(
            t[5],
        )->0 < 32 {
            let code = (hexval_char(t[4])->0 * 16 + hexval_char(t[5])->0) as u8;
            match p_string_body(t.skip(6)) {
                Some((s, c)) => Some((seq![code as char] + s, 6 + c)),
                None => None,
            }
        } else {
            None
        }
    } else if (t[0] as u32) < 32 {
        None
    } else {
        match p_string_body(t.skip(1)) {
            Some((s, c)) => Some((seq![t[0]] + s, 1 + c)),
            None => None,
        }
    }
}

/// A JSON string literal.
pub open spec fn p_string(t: Seq<char>) -> Option<(Seq<char>, int)> {
    if t.len() >= 1 && t[0] == '"' {
        match p_string_body(t.skip(1)) {
            Some((s, c)) => Some((s, 1 + c)),
            None => None,
        }
    } else {
        None
    }
}

/// A JSON string literal or `null`.
pub open spec fn p_opt_string(t: Seq<char>) -> Option<(Option<Seq<char>>, int)> {
    if starts_with(t, "null"@) {
        Some((None, 4))
    } else {
        match p_string(t) {
            Some((s, c)) => Some((Some(s), c)),
            None => None,
        }
    }
}

/// One past the end of the digit run starting at `i`.
pub open spec fn digits_end(t: Seq<char>, i: int) -> int
    decreases t.len() - i when 0 <= i <= t.len()
{
    if i < t.len() && crate::strutil::is_digit(t[i]) {
        digits_end(t, i + 1)
    } else {
        i
    }
}

/// A signed 64-bit decimal numeral.
pub open spec fn p_i64(t: Seq<char>) -> Option<(i64, int)> {
    let neg = t.len() > 0 && t[0] == '-';
    let s: int = if neg { 1 } else { 0 };
    let e = digits_end(t, s);
    if e == s {
        None
    } else {
        let d = t.subrange(s, e);
        if neg {
            if crate::strutil::digits_val(d) <= 0x8000000000000000 {
                Some(((-crate::strutil::digits_val(d)) as i64, e))
            } else {
                None
            }
        } else {
            if crate::strutil::digits_val(d) <= 0x7fffffffffffffff {
                Some((crate::strutil::digits_val(d) as i64, e))
            } else {
                None
            }
        }
    }
}

/// A JSON number or `null`.
pub open spec fn p_opt_i64(t: Seq<char>) -> Option<(Option<i64>, int)> {
    if starts_with(t, "null"@) {
        Some((None, 4))
    } else {
        match p_i64(t) {
            Some((v, c)) => Some((Some(v), c)),
            None => None,
        }
    }
}

/// `true` or `false`.
pub open spec fn p_bool(t: Seq<char>) -> Option<(bool, int)> {
    if starts_with(t, "true"@) {
        Some((true, 4))
    } else if starts_with(t, "false"@) {
        Some((false, 5))
    } else {
        None
    }
}

/// An unsigned byte numeral.
pub open spec fn p_u8(t: Seq<char>) -> Option<(u8, int)> {
    let e = digits_end(t, 0);
    if e == 0 {
        None
    } else {
        let d = t.subrange(0, e);
        if crate::strutil::digits_val(d) <= 255 {
            Some((crate::strutil::digits_val(d) as u8, e))
        } else {
            None
        }
    }
}

/// One or more byte numerals separated by commas, ending at `]`
/// (the `]` is consumed).
pub open spec fn p_bytes_items(t: Seq<char>) -> Option<(Seq<u8>, int)>
    decreases t.len(),
{
    match p_u8(t) {
        None => None,
        Some((v, c)) => if 0 <= c && c < t.len() && t[c] == ',' {
            match p_bytes_items(t.skip(c + 1)) {
                Some((rest, c2)) => Some((seq![v] + rest, c + 1 + c2)),
                None => None,
            }
        } else if 0 <= c && c < t.len() && t[c] == ']' {
            Some((seq![v], c + 1))
        } else {
            None
        },
    }
}

/// A byte array: `[` then items, or `[]`.
pub open spec fn p_bytes(t: Seq<char>) -> Option<(Seq<u8>, int)> {
    if t.len() >= 1 && t[0] == '[' {
        if t.len() >= 2 && t[1] == ']' {
            Some((Seq::empty(), 2))
        } else {
            match p_bytes_items(t.skip(1)) {
                Some((b, c)) => Some((b, 1 + c)),
                None => None,
            }
        }
    } else {
        None
    }
}

/// The blob kind a stable name denotes.
pub open spec fn kind_of(s: Seq<char>) -> Option<ContentKind> {
    if s == "Xml"@ {
        Some(ContentKind::Xml)
    } else if s == "Json"@ {
        Some(ContentKind::Json)
    } else if s == "Html"@ {
        Some(ContentKind::Html)
    } else if s == "Text"@ {
        Some(ContentKind::Text)
    } else if s == "Binary"@ {
        Some(ContentKind::Binary)
    } else {
        None
    }
}

/// A content blob object.
pub open spec fn p_blob(t: Seq<char>) -> Option<(ContentBlobView, int)> {
    match p_lit(t, "{\"kind\":"@) {
        None => None,
        Some(c0) => match p_string(t.skip(c0)) {
            None => None,
            Some((ks, c1)) => match kind_of(ks) {
                None => None,
                Some(k) => match p_lit(t.skip(c0 + c1), ",\"bytes\":"@) {
                    None => None,
                    Some(c2) => match p_bytes(t.skip(c0 + c1 + c2)) {
                        None => None,
                        Some((b, c3)) => match p_lit(t.skip(c0 + c1 + c2 + c3), "}"@) {
                            None => None,
                            Some(c4) => Some(
                                (
                                    ContentBlobView { kind: k, bytes: b },
                                    c0 + c1 + c2 + c3 + c4,
                                ),
                            ),
                        },
                    },
                },
            },
        },
    }
}

/// A content blob object or `null`.
pub open spec fn p_opt_blob(t: Seq<char>) -> Option<(Option<ContentBlobView>, int)> {
    if starts_with(t, "null"@) {
        Some((None, 4))
    } else {
        match p_blob(t) {
            Some((b, c)) => Some((Some(b), c)),
            None => None,
        }
    }
}

/// A field: an exact key literal followed by a string value.
pub open spec fn p_field_string(t: Seq<char>, key: Seq<char>) -> Option<(Seq<char>, int)> {
    match p_lit(t, key) {
        None => None,
        Some(c) => match p_string(t.skip(c)) {
            None => None,
            Some((s, c2)) => Some((s, c + c2)),
        },
    }
}

/// A field: an exact key literal followed by a string value or `null`.
pub open spec fn p_field_opt_string(t: Seq<char>, key: Seq<char>) -> Option<
    (Option<Seq<char>>, int),
> {
    match p_lit(t, key) {
        None => None,
        Some(c) => match p_opt_string(t.skip(c)) {
            None => None,
            Some((s, c2)) => Some((s, c + c2)),
        },
    }
}

/// A field: an exact key literal followed by a number or `null`.
pub open spec fn p_field_opt_i64(t: Seq<char>, key: Seq<char>) -> Option<(Option<i64>, int)> {
    match p_lit(t, key) {
        None => None,
        Some(c) => match p_opt_i64(t.skip(c)) {
            None => None,
            Some((x, c2)) => Some((x, c + c2)),
        },
    }
}

/// A field: an exact key literal followed by `true` or `false`.
pub open spec fn p_field_bool(t: Seq<char>, key: Seq<char>) -> Option<(bool, int)> {
    match p_lit(t, key) {
        None => None,
        Some(c) => match p_bool(t.skip(c)) {
            None => None,
            Some((b, c2)) => Some((b, c + c2)),
        },
    }
}

/// A field: an exact key literal followed by a blob object or `null`.
pub open spec fn p_field_opt_blob(t: Seq<char>, key: Seq<char>) -> Option<
    (Option<ContentBlobView>, int),
> {
    match p_lit(t, key) {
        None => None,
        Some(c) => match p_opt_blob(t.skip(c)) {
            None => None,
            Some((b, c2)) => Some((b, c + c2)),
        },
    }
}

/// A whole feed record in the canonical field order.
pub open spec fn p_feed(t: Seq<char>) -> Option<(FeedView, int)> {
    match p_field_string(t, "{\"id\":"@) {
        None => None,
        Some((id, c0)) => match p_field_string(t.skip(c0), ",\"url\":"@) {
            None => None,
            Some((url, c1)) => match p_field_opt_string(t.skip(c0 + c1), ",\"title\":"@) {
                None => None,
                Some((title, c2)) => match p_field_opt_string(
                    t.skip(c0 + c1 + c2),
                    ",\"site_url\":"@,
                ) {
                    None => None,
                    Some((site_url, c3)) => match p_field_opt_string(
                        t.skip(c0 + c1 + c2 + c3),
                        ",\"etag\":"@,
                    ) {
                        None => None,
                        Some((etag, c4)) => match p_field_opt_string(
                            t.skip(c0 + c1 + c2 + c3 + c4),
                            ",\"last_modified\":"@,
                        ) {
                            None => None,
                            Some((lm, c5)) => match p_field_bool(
                                t.skip(c0 + c1 + c2 + c3 + c4 + c5),
                                ",\"active\":"@,
                            ) {
                                None => None,
                                Some((act, c6)) => match p_lit(
                                    t.skip(c0 + c1 + c2 + c3 + c4 + c5 + c6),
                                    "}"@,
                                ) {
                                    None => None,
                                    Some(c7) => Some(
                                        (
                                            FeedView {
                                                id: id,
                                                url: url,
                                                title: title,
                                                site_url: site_url,
                                                etag: etag,
                                                last_modified: lm,
                                                active: act,
                                            },
                                            c0 + c1 + c2 + c3 + c4 + c5 + c6 + c7,
                                        ),
                                    ),
                                },
                            },
                        },
                    },
                },
            },
        },
    }
}

/// The tail of an entry record: timestamps, summary, content and the
/// closing brace.
pub open spec fn p_entry_tail(t: Seq<char>) -> Option<
    ((Option<i64>, Option<i64>, Option<Seq<char>>, Option<ContentBlobView>), int),
> {
    match p_field_opt_i64(t, ",\"published_ts\":"@) {
        None => None,
        Some((pts, c4)) => match p_field_opt_i64(t.skip(c4), ",\"updated_ts\":"@) {
            None => None,
            Some((uts, c5)) => match p_field_opt_string(t.skip(c4 + c5), ",\"summary\":"@) {
                None => None,
                Some((sum, c6)) => match p_field_opt_blob(
                    t.skip(c4 + c5 + c6),
                    ",\"content\":"@,
                ) {
                    None => None,
                    Some((content, c7)) => match p_lit(t.skip(c4 + c5 + c6 + c7), "}"@) {
                        None => None,
                        Some(c8) => Some(
                            (((pts, uts, sum, content)), c4 + c5 + c6 + c7 + c8),
                        ),
                    },
                },
            },
        },
    }
}

/// A whole entry record in the canonical field order.
pub open spec fn p_entry(t: Seq<char>) -> Option<(EntryView, int)> {
    match p_field_string(t, "{\"id\":"@) {
        None => None,
        Some((id, c0)) => match p_field_string(t.skip(c0), ",\"feed\":"@) {
            None => None,
            Some((feed, c1)) => match p_field_opt_string(t.skip(c0 + c1), ",\"url\":"@) {
                None => None,
                Some((url, c2)) => match p_field_opt_string(
                    t.skip(c0 + c1 + c2),
                    ",\"title\":"@,
                ) {
                    None => None,
                    Some((title, c3)) => match p_entry_tail(t.skip(c0 + c1 + c2 + c3)) {
                        None => None,
                        Some(((pts, uts, sum, content), c4)) => Some(
                            (
                                EntryView {
                                    id: id,
                                    feed: feed,
                                    url: url,
                                    title: title,
                                    published_ts: pts,
                                    updated_ts: uts,
                                    summary: sum,
                                    content: content,
                                },
                                c0 + c1 + c2 + c3 + c4,
                            ),
                        ),
                    },
                },
            },
        },
    }
}

/// What parsing a whole text as a feed record yields: the record, when the
/// text is a canonical encoding consumed to its end.
pub open spec fn parse_feed_spec(s: Seq<char>) -> Option<FeedView> {
    match p_feed(s) {
        Some((f, c)) => if c == s.len() {
            Some(f)
        } else {
            None
        },
        None => None,
    }
}

/// What parsing a whole text as an entry record yields.
pub open spec fn parse_entry_spec(s: Seq<char>) -> Option<EntryView> {
    match p_entry(s) {
        Some((e, c)) => if c == s.len() {
            Some(e)
        } else {
            None
        },
        None => None,
    }
}


// ---------------------------------------------------------------------------
// Parser
// ---------------------------------------------------------------------------

proof fn lemma_digits_end_bounds(t: Seq<char>, i: int)
    requires
        0 <= i <= t.len(),
    ensures
        i <= digits_end(t, i) <= t.len(),
        forall|k: int| i <= k < digits_end(t, i) ==> crate::strutil::is_digit(#[trigger] t[k]),
        digits_end(t, i) < t.len() ==> !crate::strutil::is_digit(t[digits_end(t, i)]),
    decreases t.len() - i,
{
    if i < t.len() && crate::strutil::is_digit(t[i]) {
        lemma_digits_end_bounds(t, i + 1);
    }
}

/// Consume an exact literal at `i`.
fn parse_lit_at(v: &Vec<char>, i: usize, lit: &str) -> (r: Option<usize>)
    requires
        i <= v@.len(),
    ensures
        r is Some <==> p_lit(v@.skip(i as int), lit@) is Some,
        r matches Some(j) ==> p_lit(v@.skip(i as int), lit@) == Some((j - i) as int) && i <= j
            <= v@.len(),
{
    let ghost t = v@.skip(i as int);
    let lc = crate::strutil::str_chars(lit);
    let m = lc.len();
    if v.len() - i < m {
        proof {
            assert(t.len() < lit@.len());
        }
        return None;
    }
    let mut j: usize = 0;
    while j < m
        invariant
            0 <= j <= m,
            m == lit@.len(),
            lc@ == lit@,
            i + m <= v@.len(),
            v@.len() <= usize::MAX,
            t == v@.skip(i as int),
            forall|k: int| 0 <= k < j ==> t[k] == lit@[k],
        decreases m - j,
    {
        proof {
            assert(i + j < v@.len());
        }
        if v[i + j] != lc[j] {
            proof {
                assert(t[j as int] == v@[i + j]);
                assert(t[j as int] != lit@[j as int]);
                assert(!starts_with(t, lit@)) by {
                    if starts_with(t, lit@) {
                        assert(t.subrange(0, lit@.len() as int)[j as int] == lit@[j as int]);
                    }
                }
            }
            return None;
        }
        proof {
            assert(t[j as int] == v@[i + j]);
        }
        j += 1;
    }
    proof {
        assert(t.subrange(0, lit@.len() as int) =~= lit@);
        assert(starts_with(t, lit@));
    }
    Some(i + m)
}

fn hexval_char_exec(c: char) -> (r: Option<u8>)
    ensures
        r == hexval_char(c),
{
    let u = c as u32;
    if 48 <= u && u <= 57 {
        Some((u - 48) as u8)
    } else if 97 <= u && u <= 102 {
        Some((10 + u - 97) as u8)
    } else if 65 <= u && u <= 70 {
        Some((10 + u - 65) as u8)
    } else {
        None
    }
}

/// Parse a JSON string literal at `i`.
fn parse_string_at(v: &Vec<char>, i: usize) -> (r: Option<(String, usize)>)
    requires
        i <= v@.len(),
    ensures
        r is Some <==> p_string(v@.skip(i as int)) is Some,
        r matches Some((s, j)) ==> (p_string(v@.skip(i as int)) matches Some(p) && s@ == p.0 && j
            == i + p.1 && i < j <= v@.len()),
{
    let ghost t = v@.skip(i as int);
    if i >= v.len() || v[i] != '"' {
        proof {
            if t.len() >= 1 {
                assert(t[0] == v@[i as int]);
            }
        }
        return None;
    }
    proof {
        assert(t[0] == v@[i as int]);
        assert(t.skip(1) =~= v@.skip(i + 1));
    }
    let mut acc = String::new();
    let mut k: usize = i + 1;
    loop
        invariant
            i + 1 <= k <= v@.len(),
            i < v@.len(),
            v@.len() <= usize::MAX,
            t == v@.skip(i as int),
            t.skip(1) == v@.skip(i + 1),
            t.len() >= 1 && t[0] == '"',
            (match p_string_body(v@.skip(k as int)) {
                Some((s, c)) => p_string_body(v@.skip(i + 1)) == Some::<(Seq<char>, int)>(
                    (acc@ + s, (k - (i + 1)) + c),
                ),
                None => p_string_body(v@.skip(i + 1)) is None,
            }),
        decreases v@.len() - k,
    {
        let ghost tk = v@.skip(k as int);
        if k >= v.len() {
            proof {
                assert(tk.len() == 0);
            }
            return None;
        }
        let c = v[k];
        proof {
            assert(tk[0] == v@[k as int]);
        }
        if c == '"' {
            proof {
                assert(p_string_body(tk) == Some::<(Seq<char>, int)>((Seq::empty(), 1)));
                assert(acc@ + Seq::<char>::empty() =~= acc@);
            }
            return Some((acc, k + 1));
        } else if c == '\\' {
            if v.len() - k >= 2 {
                let c2 = v[k + 1];
                proof {
                    assert(tk[1] == v@[k + 1]);
                }
                if c2 == '"' || c2 == '\\' {
                    push_char(&mut acc, c2);
                    proof {
                        assert(tk.skip(2) =~= v@.skip(k + 2));
                        let ghost old_acc = acc@.drop_last();
                        assert(acc@ == old_acc.push(c2));
                        match p_string_body(v@.skip(k + 2)) {
                            Some((s, cc)) => {
                                assert(p_string_body(tk) == Some::<(Seq<char>, int)>(
                                    (seq![c2] + s, 2 + cc),
                                ));
                                assert(old_acc + (seq![c2] + s) =~= acc@ + s);
                            },
                            None => {
                                assert(p_string_body(tk) is None);
                            },
                        }
                    }
                    k = k + 2;
                } else if c2 == 'u' && v.len() - k >= 6 {
                    let d2 = v[k + 2];
                    let d3 = v[k + 3];
                    let h4 = hexval_char_exec(v[k + 4]);
                    let h5 = hexval_char_exec(v[k + 5]);
                    proof {
                        assert(tk[2] == v@[k + 2] && tk[3] == v@[k + 3] && tk[4] == v@[k + 4]
                            && tk[5] == v@[k + 5]);
                    }
                    if d2 == '0' && d3 == '0' && h4.is_some() && h5.is_some() {
                        let hv = h4.unwrap();
                        let lv = h5.unwrap();
                        if hv * 16 + lv < 32 {
                            let code: u8 = hv * 16 + lv;
                            push_char(&mut acc, code as char);
                            proof {
                                assert(tk.skip(6) =~= v@.skip(k + 6));
                                let ghost old_acc = acc@.drop_last();
                                assert(acc@ == old_acc.push(code as char));
                                match p_string_body(v@.skip(k + 6)) {
                                    Some((s, cc)) => {
                                        assert(p_string_body(tk) == Some::<(Seq<char>, int)>(
                                            (seq![code as char] + s, 6 + cc),
                                        ));
                                        assert(old_acc + (seq![code as char] + s) =~= acc@ + s);
                                    },
                                    None => {
                                        assert(p_string_body(tk) is None);
                                    },
                                }
                            }
                            k = k + 6;
                        } else {
                            return None;
                        }
                    } else {
                        return None;
                    }
                } else {
                    return None;
                }
            } else {
                proof {
                    assert(tk.len() < 2);
                }
                return None;
            }
        } else if (c as u32) < 32 {
            return None;
        } else {
            push_char(&mut acc, c);
            proof {
                assert(tk.skip(1) =~= v@.skip(k + 1));
                let ghost old_acc = acc@.drop_last();
                assert(acc@ == old_acc.push(c));
                match p_string_body(v@.skip(k + 1)) {
                    Some((s, cc)) => {
                        assert(p_string_body(tk) == Some::<(Seq<char>, int)>((seq![c] + s, 1 + cc)));
                        assert(old_acc + (seq![c] + s) =~= acc@ + s);
                    },
                    None => {
                        assert(p_string_body(tk) is None);
                    },
                }
            }
            k = k + 1;
        }
    }
}

/// Parse a JSON string literal or `null` at `i`.
fn parse_opt_string_at(v: &Vec<char>, i: usize) -> (r: Option<(Option<String>, usize)>)
    requires
        i <= v@.len(),
    ensures
        r is Some <==> p_opt_string(v@.skip(i as int)) is Some,
        r matches Some((o, j)) ==> (p_opt_string(v@.skip(i as int)) matches Some(p)
            && opt_string_view(o) == p.0 && j == i + p.1 && i < j <= v@.len()),
{
    match parse_lit_at(v, i, "null") {
        Some(j) => {
            proof {
                reveal_strlit("null");
            }
            Some((None, j))
        },
        None => {
            match parse_string_at(v, i) {
                Some((s, j)) => Some((Some(s), j)),
                None => None,
            }
        },
    }
}

/// Parse a run of digits starting at `i`, returning its end.
fn scan_digits(v: &Vec<char>, i: usize) -> (e: usize)
    requires
        i <= v@.len(),
    ensures
        i <= e <= v@.len(),
        e - i == digits_end(v@.skip(i as int), 0),
{
    let ghost t = v@.skip(i as int);
    let vlen = v.len();
    let mut k: usize = i;
    while k < vlen && crate::strutil::is_digit_char(v[k])
        invariant
            i <= k <= v@.len(),
            vlen == v@.len(),
            t == v@.skip(i as int),
            digits_end(t, 0) == digits_end(t, (k - i) as int),
            forall|m: int| 0 <= m < k - i ==> crate::strutil::is_digit(#[trigger] t[m]),
        decreases v@.len() - k,
    {
        proof {
            assert(t[(k - i) as int] == v@[k as int]);
            assert(crate::strutil::is_digit(t[(k - i) as int]));
            assert(digits_end(t, (k - i) as int) == digits_end(t, (k - i) + 1));
        }
        k += 1;
    }
    proof {
        if k < vlen {
            assert(t[(k - i) as int] == v@[k as int]);
            assert(!crate::strutil::is_digit(t[(k - i) as int]));
        }
        assert(digits_end(t, (k - i) as int) == (k - i) as int);
    }
    k
}

/// Parse a signed 64-bit decimal numeral at `i`.
fn parse_i64_at(v: &Vec<char>, i: usize) -> (r: Option<(i64, usize)>)
    requires
        i <= v@.len(),
    ensures
        r is Some <==> p_i64(v@.skip(i as int)) is Some,
        r matches Some((x, j)) ==> (p_i64(v@.skip(i as int)) matches Some(p) && x == p.0 && j == i
            + p.1 && i < j <= v@.len()),
{
    let ghost t = v@.skip(i as int);
    let neg = i < v.len() && v[i] == '-';
    proof {
        if i < v.len() {
            assert(t[0] == v@[i as int]);
        }
        assert(neg == (t.len() > 0 && t[0] == '-'));
    }
    let s0: usize = if neg {
        i + 1
    } else {
        i
    };
    let e = scan_digits(v, s0);
    proof {
        assert(v@.skip(s0 as int) =~= t.skip((s0 - i) as int));
        lemma_digits_end_shift(t, (s0 - i) as int);
        assert(digits_end(t, (s0 - i) as int) == (s0 - i) + digits_end(t.skip((s0 - i) as int), 0));
        assert((e - i) as int == digits_end(t, (s0 - i) as int));
    }
    if e == s0 {
        return None;
    }
    let ghost d = t.subrange((s0 - i) as int, (e - i) as int);
    proof {
        assert(v@.subrange(s0 as int, e as int) =~= d);
        lemma_digits_end_bounds(t, (s0 - i) as int);
    }
    if neg {
        let m = crate::strutil::parse_digits_range(v, s0, e, 0x8000000000000000u64);
        proof {
            if m is None {
                crate::strutil::lemma_digits_val_nonneg(d);
            }
        }
        match m {
            None => None,
            Some(mag) => {
                let x: i64 = if mag == 0x8000000000000000u64 {
                    i64::MIN
                } else {
                    -(mag as i64)
                };
                Some((x, e))
            },
        }
    } else {
        let m = crate::strutil::parse_digits_range(v, s0, e, 0x7fffffffffffffffu64);
        proof {
            if m is None {
                crate::strutil::lemma_digits_val_nonneg(d);
            }
        }
        match m {
            None => None,
            Some(x) => Some((x as i64, e)),
        }
    }
}

proof fn lemma_digits_end_shift(t: Seq<char>, s: int)
    requires
        0 <= s <= t.len(),
    ensures
        digits_end(t, s) == s + digits_end(t.skip(s), 0),
    decreases t.len() - s,
{
    lemma_digits_end_bounds(t, s);
    lemma_digits_end_bounds(t.skip(s), 0);
    if s < t.len() && crate::strutil::is_digit(t[s]) {
        lemma_digits_end_shift(t, s + 1);
        assert(t.skip(s + 1) =~= t.skip(s).skip(1));
        lemma_digits_end_skip_one(t.skip(s));
    } else {
        if s < t.len() {
            assert(t.skip(s)[0] == t[s]);
        }
    }
}

proof fn lemma_digits_end_skip_one(u: Seq<char>)
    requires
        u.len() > 0,
        crate::strutil::is_digit(u[0]),
    ensures
        digits_end(u, 0) == 1 + digits_end(u.skip(1), 0),
    decreases u.len(),
{
    lemma_digits_end_shift_zero(u, 1);
}

proof fn lemma_digits_end_shift_zero(u: Seq<char>, s: int)
    requires
        0 <= s <= u.len(),
    ensures
        digits_end(u, s) == s + digits_end(u.skip(s), 0),
    decreases u.len() - s,
{
    if s < u.len() && crate::strutil::is_digit(u[s]) {
        lemma_digits_end_shift_zero(u, s + 1);
        assert(u.skip(s + 1) =~= u.skip(s).skip(1));
        assert(u.skip(s)[0] == u[s]);
        lemma_digits_end_shift_zero(u.skip(s), 1);
    } else {
        if s < u.len() {
            assert(u.skip(s)[0] == u[s]);
        }
    }
}

/// Parse a JSON number or `null` at `i`.
fn parse_opt_i64_at(v: &Vec<char>, i: usize) -> (r: Option<(Option<i64>, usize)>)
    requires
        i <= v@.len(),
    ensures
        r is Some <==> p_opt_i64(v@.skip(i as int)) is Some,
        r matches Some((o, j)) ==> (p_opt_i64(v@.skip(i as int)) matches Some(p) && o == p.0 && j
            == i + p.1 && i < j <= v@.len()),
{
    match parse_lit_at(v, i, "null") {
        Some(j) => {
            proof {
                reveal_strlit("null");
            }
            Some((None, j))
        },
        None => {
            match parse_i64_at(v, i) {
                Some((x, j)) => Some((Some(x), j)),
                None => None,
            }
        },
    }
}

/// Parse `true` or `false` at `i`.
fn parse_bool_at(v: &Vec<char>, i: usize) -> (r: Option<(bool, usize)>)
    requires
        i <= v@.len(),
    ensures
        r is Some <==> p_bool(v@.skip(i as int)) is Some,
        r matches Some((b, j)) ==> (p_bool(v@.skip(i as int)) matches Some(p) && b == p.0 && j == i
            + p.1 && i < j <= v@.len()),
{
    proof {
        reveal_strlit("true");
        reveal_strlit("false");
    }
    match parse_lit_at(v, i, "true") {
        Some(j) => Some((true, j)),
        None => {
            match parse_lit_at(v, i, "false") {
                Some(j) => Some((false, j)),
                None => None,
            }
        },
    }
}

/// Parse an unsigned byte numeral at `i`.
fn parse_u8_at(v: &Vec<char>, i: usize) -> (r: Option<(u8, usize)>)
    requires
        i <= v@.len(),
    ensures
        r is Some <==> p_u8(v@.skip(i as int)) is Some,
        r matches Some((x, j)) ==> (p_u8(v@.skip(i as int)) matches Some(p) && x == p.0 && j == i
            + p.1 && i < j <= v@.len()),
{
    let ghost t = v@.skip(i as int);
    let e = scan_digits(v, i);
    if e == i {
        return None;
    }
    let ghost d = t.subrange(0, (e - i) as int);
    proof {
        assert(v@.subrange(i as int, e as int) =~= d);
        lemma_digits_end_bounds(t, 0);
    }
    let m = crate::strutil::parse_digits_range(v, i, e, 255u64);
    proof {
        if m is None {
            crate::strutil::lemma_digits_val_nonneg(d);
        }
    }
    match m {
        None => None,
        Some(x) => Some((x as u8, e)),
    }
}

/// Parse the items of a byte array at `i`, through the closing `]`.
fn parse_bytes_items_at(v: &Vec<char>, i: usize) -> (r: Option<(Vec<u8>, usize)>)
    requires
        i <= v@.len(),
    ensures
        r is Some <==> p_bytes_items(v@.skip(i as int)) is Some,
        r matches Some((b, j)) ==> (p_bytes_items(v@.skip(i as int)) matches Some(p) && b@ == p.0
            && j == i + p.1 && i < j <= v@.len()),
{
    let mut acc: Vec<u8> = Vec::new();
    let vlen = v.len();
    let mut k: usize = i;
    loop
        invariant
            i <= k <= v@.len(),
            vlen == v@.len(),
            (match p_bytes_items(v@.skip(k as int)) {
                Some((b, c)) => p_bytes_items(v@.skip(i as int)) == Some::<(Seq<u8>, int)>(
                    (acc@ + b, (k - i) + c),
                ),
                None => p_bytes_items(v@.skip(i as int)) is None,
            }),
        decreases v@.len() - k,
    {
        let ghost tk = v@.skip(k as int);
        let first = parse_u8_at(v, k);
        match first {
            None => {
                return None;
            },
            Some((x, k2)) => {
                if k2 < vlen && v[k2] == ',' {
                    proof {
                        assert(tk[(k2 - k) as int] == v@[k2 as int]);
                        assert(tk.skip((k2 - k) + 1) =~= v@.skip(k2 + 1));
                        let ghost old_acc = acc@;
                        match p_bytes_items(v@.skip(k2 + 1)) {
                            Some((b, c)) => {
                                assert(old_acc.push(x) + b =~= old_acc + (seq![x] + b));
                            },
                            None => {},
                        }
                    }
                    acc.push(x);
                    k = k2 + 1;
                } else if k2 < vlen && v[k2] == ']' {
                    proof {
                        assert(tk[(k2 - k) as int] == v@[k2 as int]);
                        assert(p_bytes_items(tk) == Some::<(Seq<u8>, int)>(
                            (seq![x], (k2 - k) + 1),
                        ));
                        assert(acc@.push(x) =~= acc@ + seq![x]);
                    }
                    acc.push(x);
                    return Some((acc, k2 + 1));
                } else {
                    proof {
                        if (k2 - k) < tk.len() {
                            assert(tk[(k2 - k) as int] == v@[k2 as int]);
                        }
                    }
                    return None;
                }
            },
        }
    }
}

/// Parse a byte array at `i`.
fn parse_bytes_at(v: &Vec<char>, i: usize) -> (r: Option<(Vec<u8>, usize)>)
    requires
        i <= v@.len(),
    ensures
        r is Some <==> p_bytes(v@.skip(i as int)) is Some,
        r matches Some((b, j)) ==> (p_bytes(v@.skip(i as int)) matches Some(p) && b@ == p.0 && j
            == i + p.1 && i < j <= v@.len()),
{
    let ghost t = v@.skip(i as int);
    if i >= v.len() || v[i] != '[' {
        proof {
            if t.len() >= 1 {
                assert(t[0] == v@[i as int]);
            }
        }
        return None;
    }
    proof {
        assert(t[0] == v@[i as int]);
    }
    if i + 1 < v.len() && v[i + 1] == ']' {
        proof {
            assert(t[1] == v@[i + 1]);
        }
        let empty: Vec<u8> = Vec::new();
        proof {
            assert(empty@ =~= Seq::<u8>::empty());
        }
        return Some((empty, i + 2));
    }
    proof {
        if t.len() >= 2 {
            assert(t[1] == v@[i + 1]);
        }
        assert(t.skip(1) =~= v@.skip(i + 1));
    }
    match parse_bytes_items_at(v, i + 1) {
        Some((b, j)) => Some((b, j)),
        None => None,
    }
}

/// Parse a content blob object at `i`.
fn parse_blob_at(v: &Vec<char>, i: usize) -> (r: Option<(ContentBlob, usize)>)
    requires
        i <= v@.len(),
    ensures
        r is Some <==> p_blob(v@.skip(i as int)) is Some,
        r matches Some((b, j)) ==> (p_blob(v@.skip(i as int)) matches Some(p) && b@ == p.0 && j
            == i + p.1 && i < j <= v@.len()),
{
    let ghost t = v@.skip(i as int);
    let Some(a0) = parse_lit_at(v, i, "{\"kind\":") else { return None };
    proof {
        assert(t.skip((a0 - i) as int) =~= v@.skip(a0 as int));
    }
    let Some((ks, a1)) = parse_string_at(v, a0) else { return None };
    let kind_opt = if crate::strutil::str_equal(ks.as_str(), "Xml") {
        Some(ContentKind::Xml)
    } else if crate::strutil::str_equal(ks.as_str(), "Json") {
        Some(ContentKind::Json)
    } else if crate::strutil::str_equal(ks.as_str(), "Html") {
        Some(ContentKind::Html)
    } else if crate::strutil::str_equal(ks.as_str(), "Text") {
        Some(ContentKind::Text)
    } else if crate::strutil::str_equal(ks.as_str(), "Binary") {
        Some(ContentKind::Binary)
    } else {
        None
    };
    proof {
        assert(kind_opt == kind_of(ks@));
    }
    let Some(kind) = kind_opt else { return None };
    proof {
        assert(t.skip((a1 - i) as int) =~= v@.skip(a1 as int));
    }
    let Some(a2) = parse_lit_at(v, a1, ",\"bytes\":") else { return None };
    proof {
        assert(t.skip((a2 - i) as int) =~= v@.skip(a2 as int));
    }
    let Some((bytes, a3)) = parse_bytes_at(v, a2) else { return None };
    proof {
        assert(t.skip((a3 - i) as int) =~= v@.skip(a3 as int));
    }
    let Some(a4) = parse_lit_at(v, a3, "}") else { return None };
    Some((ContentBlob { kind, bytes }, a4))
}

/// Parse a content blob object or `null` at `i`.
fn parse_opt_blob_at(v: &Vec<char>, i: usize) -> (r: Option<(Option<ContentBlob>, usize)>)
    requires
        i <= v@.len(),
    ensures
        r is Some <==> p_opt_blob(v@.skip(i as int)) is Some,
        r matches Some((o, j)) ==> (p_opt_blob(v@.skip(i as int)) matches Some(p) && (match o {
            Some(b) => p.0 matches Some(bv) && b@ == bv,
            None => p.0 is None,
        }) && j == i + p.1 && i < j <= v@.len()),
{
    match parse_lit_at(v, i, "null") {
        Some(j) => {
            proof {
                reveal_strlit("null");
            }
            Some((None, j))
        },
        None => {
            match parse_blob_at(v, i) {
                Some((b, j)) => Some((Some(b), j)),
                None => None,
            }
        },
    }
}

/// Parse a key literal followed by a string value.
fn parse_field_string(v: &Vec<char>, i: usize, key: &str) -> (r: Option<(String, usize)>)
    requires
        i <= v@.len(),
    ensures
        r is Some <==> p_field_string(v@.skip(i as int), key@) is Some,
        r matches Some((s, j)) ==> (p_field_string(v@.skip(i as int), key@) matches Some(p) && s@
            == p.0 && j == i + p.1 && i <= j <= v@.len()),
{
    match parse_lit_at(v, i, key) {
        None => None,
        Some(a) => {
            proof {
                assert(v@.skip(i as int).skip((a - i) as int) =~= v@.skip(a as int));
            }
            match parse_string_at(v, a) {
                None => None,
                Some((s, j)) => Some((s, j)),
            }
        },
    }
}

/// Parse a key literal followed by a string value or `null`.
fn parse_field_opt_string(v: &Vec<char>, i: usize, key: &str) -> (r: Option<
    (Option<String>, usize),
>)
    requires
        i <= v@.len(),
    ensures
        r is Some <==> p_field_opt_string(v@.skip(i as int), key@) is Some,
        r matches Some((o, j)) ==> (p_field_opt_string(v@.skip(i as int), key@) matches Some(p)
            && opt_string_view(o) == p.0 && j == i + p.1 && i <= j <= v@.len()),
{
    match parse_lit_at(v, i, key) {
        None => None,
        Some(a) => {
            proof {
                assert(v@.skip(i as int).skip((a - i) as int) =~= v@.skip(a as int));
            }
            match parse_opt_string_at(v, a) {
                None => None,
                Some((o, j)) => Some((o, j)),
            }
        },
    }
}

/// Parse a key literal followed by a number or `null`.
fn parse_field_opt_i64(v: &Vec<char>, i: usize, key: &str) -> (r: Option<(Option<i64>, usize)>)
    requires
        i <= v@.len(),
    ensures
        r is Some <==> p_field_opt_i64(v@.skip(i as int), key@) is Some,
        r matches Some((o, j)) ==> (p_field_opt_i64(v@.skip(i as int), key@) matches Some(p) && o
            == p.0 && j == i + p.1 && i <= j <= v@.len()),
{
    match parse_lit_at(v, i, key) {
        None => None,
        Some(a) => {
            proof {
                assert(v@.skip(i as int).skip((a - i) as int) =~= v@.skip(a as int));
            }
            match parse_opt_i64_at(v, a) {
                None => None,
                Some((o, j)) => Some((o, j)),
            }
        },
    }
}

/// Parse a key literal followed by `true` or `false`.
fn parse_field_bool(v: &Vec<char>, i: usize, key: &str) -> (r: Option<(bool, usize)>)
    requires
        i <= v@.len(),
    ensures
        r is Some <==> p_field_bool(v@.skip(i as int), key@) is Some,
        r matches Some((b, j)) ==> (p_field_bool(v@.skip(i as int), key@) matches Some(p) && b
            == p.0 && j == i + p.1 && i <= j <= v@.len()),
{
    match parse_lit_at(v, i, key) {
        None => None,
        Some(a) => {
            proof {
                assert(v@.skip(i as int).skip((a - i) as int) =~= v@.skip(a as int));
            }
            match parse_bool_at(v, a) {
                None => None,
                Some((b, j)) => Some((b, j)),
            }
        },
    }
}

/// Parse a key literal followed by a blob object or `null`.
fn parse_field_opt_blob(v: &Vec<char>, i: usize, key: &str) -> (r: Option<
    (Option<ContentBlob>, usize),
>)
    requires
        i <= v@.len(),
    ensures
        r is Some <==> p_field_opt_blob(v@.skip(i as int), key@) is Some,
        r matches Some((o, j)) ==> (p_field_opt_blob(v@.skip(i as int), key@) matches Some(p) && (
        match o {
            Some(b) => p.0 matches Some(bv) && b@ == bv,
            None => p.0 is None,
        }) && j == i + p.1 && i <= j <= v@.len()),
{
    match parse_lit_at(v, i, key) {
        None => None,
        Some(a) => {
            proof {
                assert(v@.skip(i as int).skip((a - i) as int) =~= v@.skip(a as int));
            }
            match parse_opt_blob_at(v, a) {
                None => None,
                Some((o, j)) => Some((o, j)),
            }
        },
    }
}

/// Parse a whole feed record: the canonical encoding, consumed entirely.
#[verifier::rlimit(100)]
#[verifier::spinoff_prover]
pub fn parse_feed(text: &str) -> (r: Option<Feed>)
    ensures
        r is Some <==> parse_feed_spec(text@) is Some,
        r matches Some(f) ==> parse_feed_spec(text@) == Some(f@),
{
    let v = crate::strutil::str_chars(text);
    let ghost t = text@;
    proof {
        assert(v@.skip(0) =~= t);
    }
    let Some((id, a0)) = parse_field_string(&v, 0, "{\"id\":") else { return None };
    proof {
        assert(v@.skip(a0 as int) =~= t.skip(a0 as int));
    }
    let Some((url, a1)) = parse_field_string(&v, a0, ",\"url\":") else { return None };
    let Some((title, a2)) = parse_field_opt_string(&v, a1, ",\"title\":") else { return None };
    let Some((site_url, a3)) = parse_field_opt_string(&v, a2, ",\"site_url\":") else {
        return None
    };
    let Some((etag, a4)) = parse_field_opt_string(&v, a3, ",\"etag\":") else { return None };
    let Some((last_modified, a5)) = parse_field_opt_string(&v, a4, ",\"last_modified\":") else {
        return None
    };
    let Some((active, a6)) = parse_field_bool(&v, a5, ",\"active\":") else { return None };
    let Some(a7) = parse_lit_at(&v, a6, "}") else { return None };
    if a7 != v.len() {
        return None;
    }
    Some(
        Feed {
            id: FeedId::new(id),
            url,
            title,
            site_url,
            etag,
            last_modified,
            active,
        },
    )
}

/// Parse the tail of an entry record at `i`.
fn parse_entry_tail_at(v: &Vec<char>, i: usize) -> (r: Option<
    ((Option<i64>, Option<i64>, Option<String>, Option<ContentBlob>), usize),
>)
    requires
        i <= v@.len(),
    ensures
        r is Some <==> p_entry_tail(v@.skip(i as int)) is Some,
        r matches Some(((pts, uts, sum, content), j)) ==> (p_entry_tail(v@.skip(i as int))
            matches Some(p) && pts == p.0.0 && uts == p.0.1 && opt_string_view(sum) == p.0.2 && (
        match content {
            Some(b) => p.0.3 matches Some(bv) && b@ == bv,
            None => p.0.3 is None,
        }) && j == i + p.1 && i <= j <= v@.len()),
{
    let ghost t = v@.skip(i as int);
    let Some((pts, a4)) = parse_field_opt_i64(v, i, ",\"published_ts\":") else { return None };
    proof {
        assert(t.skip((a4 - i) as int) =~= v@.skip(a4 as int));
    }
    let Some((uts, a5)) = parse_field_opt_i64(v, a4, ",\"updated_ts\":") else { return None };
    proof {
        assert(t.skip((a5 - i) as int) =~= v@.skip(a5 as int));
    }
    let Some((sum, a6)) = parse_field_opt_string(v, a5, ",\"summary\":") else { return None };
    proof {
        assert(t.skip((a6 - i) as int) =~= v@.skip(a6 as int));
    }
    let Some((content, a7)) = parse_field_opt_blob(v, a6, ",\"content\":") else { return None };
    proof {
        assert(t.skip((a7 - i) as int) =~= v@.skip(a7 as int));
    }
    let Some(a8) = parse_lit_at(v, a7, "}") else { return None };
    Some(((pts, uts, sum, content), a8))
}

/// Parse a whole entry record: the canonical encoding, consumed entirely.
#[verifier::rlimit(100)]
#[verifier::spinoff_prover]
pub fn parse_entry(text: &str) -> (r: Option<Entry>)
    ensures
        r is Some <==> parse_entry_spec(text@) is Some,
        r matches Some(e) ==> parse_entry_spec(text@) == Some(e@),
{
    let v = crate::strutil::str_chars(text);
    let ghost t = text@;
    proof {
        assert(v@.skip(0) =~= t);
    }
    let Some((id, a0)) = parse_field_string(&v, 0, "{\"id\":") else { return None };
    let Some((feed, a1)) = parse_field_string(&v, a0, ",\"feed\":") else { return None };
    let Some((url, a2)) = parse_field_opt_string(&v, a1, ",\"url\":") else { return None };
    let Some((title, a3)) = parse_field_opt_string(&v, a2, ",\"title\":") else { return None };
    let Some(((published_ts, updated_ts, summary, content), a4)) = parse_entry_tail_at(&v, a3)
        else { return None };
    if a4 != v.len() {
        return None;
    }
    Some(
        Entry {
            id: EntryId::new(id),
            feed: FeedId::new(feed),
            url,
            title,
            published_ts,
            updated_ts,
            summary,
            content,
        },
    )
}

// ---------------------------------------------------------------------------
// Round trip: parsing a printed record returns it unchanged.
// ---------------------------------------------------------------------------

proof fn lemma_skip_concat(a: Seq<char>, b: Seq<char>)
    ensures
        (a + b).skip(a.len() as int) == b,
        starts_with(a + b, a),
        p_lit(a + b, a) == Some(a.len() as int),
{
    assert((a + b).skip(a.len() as int) =~= b);
    assert((a + b).subrange(0, a.len() as int) =~= a);
}

proof fn lemma_hexval_hex_digit(d: int)
    requires
        0 <= d < 16,
    ensures
        hexval_char(hex_digit(d)) == Some(d as u8),
{
}

/// Parsing the escaped body of `body`, a closing quote and anything after
/// it yields `body` and stops right after the quote.
proof fn lemma_p_string_body_rt(body: Seq<char>, rest: Seq<char>)
    ensures
        p_string_body(esc_str(body) + seq!['"'] + rest) == Some::<(Seq<char>, int)>(
            (body, (esc_str(body).len() + 1) as int),
        ),
    decreases body.len(),
{
    let t = esc_str(body) + seq!['"'] + rest;
    if body.len() == 0 {
        assert(esc_str(body) =~= Seq::<char>::empty());
        assert(t[0] == '"');
        assert(body =~= Seq::<char>::empty());
    } else {
        let c = body[0];
        let body2 = body.drop_first();
        assert(esc_str(body) == esc_char(c) + esc_str(body2));
        let t2 = esc_str(body2) + seq!['"'] + rest;
        lemma_p_string_body_rt(body2, rest);
        assert(seq![c] + body2 =~= body);
        if c == '"' || c == '\\' {
            assert(esc_char(c) =~= seq!['\\', c]);
            assert(t[0] == '\\' && t[1] == c);
            assert(t.skip(2) =~= t2);
            assert(p_string_body(t) == Some::<(Seq<char>, int)>(
                (seq![c] + body2, (2 + esc_str(body2).len() + 1) as int),
            ));
        } else if (c as u32) < 32 {
            let u = c as u32;
            assert(esc_char(c) == seq![
                '\\',
                'u',
                '0',
                '0',
                hex_digit((u >> 4) as int),
                hex_digit((u & 0xf) as int),
            ]);
            assert(t[0] == '\\' && t[1] == 'u' && t[2] == '0' && t[3] == '0');
            assert(t[4] == hex_digit((u >> 4) as int) && t[5] == hex_digit((u & 0xf) as int));
            assert(u >> 4 < 16 && u & 0xf < 16 && (u >> 4) * 16 + (u & 0xf) == u) by (bit_vector)
                requires
                    u < 32,
            ;
            lemma_hexval_hex_digit((u >> 4) as int);
            lemma_hexval_hex_digit((u & 0xf) as int);
            assert(hexval_char(t[4])->0 * 16 + hexval_char(t[5])->0 < 32);
            let code = (hexval_char(t[4])->0 * 16 + hexval_char(t[5])->0) as u8;
            assert(code as u32 == u);
            assert(code as char == c) by {
                let cc = code as char;
                assert(cc as u32 == code as u32);
                vstd::utf8::char_u32_cast(c, cc as u32);
                vstd::utf8::char_u32_cast(cc, cc as u32);
            }
            assert(t.skip(6) =~= t2);
            assert(p_string_body(t) == Some::<(Seq<char>, int)>(
                (seq![c] + body2, (6 + esc_str(body2).len() + 1) as int),
            ));
        } else {
            assert(esc_char(c) =~= seq![c]);
            assert(t[0] == c);
            assert(t.skip(1) =~= t2);
            assert(p_string_body(t) == Some::<(Seq<char>, int)>(
                (seq![c] + body2, (1 + esc_str(body2).len() + 1) as int),
            ));
        }
    }
}

/// Parsing a printed string literal yields the original string.
proof fn lemma_p_string_rt(s: Seq<char>, rest: Seq<char>)
    ensures
        p_string(json_string(s) + rest) == Some::<(Seq<char>, int)>(
            (s, json_string(s).len() as int),
        ),
{
    let t = json_string(s) + rest;
    assert(t[0] == '"');
    assert(t.skip(1) =~= esc_str(s) + seq!['"'] + rest);
    lemma_p_string_body_rt(s, rest);
}

/// A printed string literal does not begin with `null`.
proof fn lemma_json_string_not_null(s: Seq<char>, rest: Seq<char>)
    ensures
        !starts_with(json_string(s) + rest, "null"@),
{
    reveal_strlit("null");
    let t = json_string(s) + rest;
    assert(t[0] == '"');
    if starts_with(t, "null"@) {
        assert(t.subrange(0, 4)[0] == 'n');
    }
}

/// Parsing a printed optional string yields the original option.
proof fn lemma_p_opt_string_rt(o: Option<Seq<char>>, rest: Seq<char>)
    ensures
        p_opt_string(json_opt_string(o) + rest) == Some::<(Option<Seq<char>>, int)>(
            (o, json_opt_string(o).len() as int),
        ),
{
    match o {
        None => {
            reveal_strlit("null");
            lemma_skip_concat("null"@, rest);
            assert(json_opt_string(o) == "null"@);
            assert("null"@.len() == 4);
        },
        Some(s) => {
            lemma_json_string_not_null(s, rest);
            lemma_p_string_rt(s, rest);
        },
    }
}

/// The digit run of printed digits followed by a non-digit ends exactly at
/// the printed digits.
proof fn lemma_digits_end_exact(d: Seq<char>, rest: Seq<char>)
    requires
        crate::strutil::all_digits(d),
        rest.len() > 0 ==> !crate::strutil::is_digit(rest[0]),
    ensures
        digits_end(d + rest, 0) == d.len(),
    decreases d.len(),
{
    let t = d + rest;
    lemma_digits_end_bounds(t, 0);
    if d.len() == 0 {
        if rest.len() > 0 {
            assert(t[0] == rest[0]);
        }
    } else {
        assert(t[0] == d[0]);
        assert(crate::strutil::is_digit(t[0]));
        assert(t.skip(1) =~= d.drop_first() + rest);
        assert(crate::strutil::all_digits(d.drop_first())) by {
            assert(forall|i: int|
                0 <= i < d.drop_first().len() ==> d.drop_first()[i] == d[i + 1]);
        }
        lemma_digits_end_exact(d.drop_first(), rest);
        lemma_digits_end_shift_zero(t, 1);
    }
}

/// Parsing a printed signed numeral followed by a non-digit yields the
/// original value.
proof fn lemma_p_i64_rt(x: i64, rest: Seq<char>)
    requires
        rest.len() > 0,
        !crate::strutil::is_digit(rest[0]),
    ensures
        p_i64(i64_dec_str(x as int) + rest) == Some::<(i64, int)>(
            (x, i64_dec_str(x as int).len() as int),
        ),
{
    let t = i64_dec_str(x as int) + rest;
    if x >= 0 {
        let d = dec_digits(x as nat);
        crate::strutil::lemma_dec_digits_all_digits(x as nat);
        crate::strutil::lemma_dec_digits_val(x as nat);
        assert(t =~= d + rest);
        assert(t[0] == d[0]);
        assert(crate::strutil::is_digit(d[0]));
        assert(t[0] != '-') by {
            assert(crate::strutil::is_digit(t[0]));
        }
        lemma_digits_end_exact(d, rest);
        assert(t.subrange(0, d.len() as int) =~= d);
        assert(crate::strutil::digits_val(d) == x as int <= 0x7fffffffffffffff);
    } else {
        let mag = (-(x as int)) as nat;
        let d = dec_digits(mag);
        crate::strutil::lemma_dec_digits_all_digits(mag);
        crate::strutil::lemma_dec_digits_val(mag);
        assert(i64_dec_str(x as int) == seq!['-'] + d);
        assert(t[0] == '-');
        assert(!crate::strutil::is_digit('-'));
        assert(t.skip(1) =~= d + rest);
        lemma_digits_end_exact(d, rest);
        lemma_digits_end_shift_zero(t, 1);
        assert(digits_end(t, 1) == 1 + d.len());
        assert(t.subrange(1, 1 + d.len() as int) =~= d);
        assert(crate::strutil::digits_val(d) == mag <= 0x8000000000000000);
        assert((-crate::strutil::digits_val(d)) as i64 == x);
    }
}

/// Parsing a printed optional numeral yields the original option.
proof fn lemma_p_opt_i64_rt(o: Option<i64>, rest: Seq<char>)
    requires
        rest.len() > 0,
        !crate::strutil::is_digit(rest[0]),
    ensures
        p_opt_i64(json_opt_i64(o) + rest) == Some::<(Option<i64>, int)>(
            (o, json_opt_i64(o).len() as int),
        ),
{
    match o {
        None => {
            reveal_strlit("null");
            lemma_skip_concat("null"@, rest);
        },
        Some(x) => {
            let t = json_opt_i64(o) + rest;
            reveal_strlit("null");
            assert(!starts_with(t, "null"@)) by {
                if x >= 0 {
                    crate::strutil::lemma_dec_digits_all_digits(x as nat);
                    assert(t[0] == dec_digits(x as nat)[0]);
                    assert(crate::strutil::is_digit(t[0]));
                    if starts_with(t, "null"@) {
                        assert(t.subrange(0, 4)[0] == 'n');
                    }
                } else {
                    assert(t[0] == '-');
                    if starts_with(t, "null"@) {
                        assert(t.subrange(0, 4)[0] == 'n');
                    }
                }
            }
            lemma_p_i64_rt(x, rest);
        },
    }
}

/// Parsing printed `true`/`false` yields the original value.
proof fn lemma_p_bool_rt(b: bool, rest: Seq<char>)
    ensures
        p_bool(json_bool(b) + rest) == Some::<(bool, int)>((b, json_bool(b).len() as int)),
{
    reveal_strlit("true");
    reveal_strlit("false");
    if b {
        lemma_skip_concat("true"@, rest);
    } else {
        lemma_skip_concat("false"@, rest);
        let t = json_bool(b) + rest;
        assert(!starts_with(t, "true"@)) by {
            if starts_with(t, "true"@) {
                assert(t.subrange(0, 4)[0] == 't');
                assert(t[0] == 'f');
            }
        }
    }
}

/// Parsing a printed byte numeral followed by a non-digit yields the byte.
proof fn lemma_p_u8_rt(x: u8, rest: Seq<char>)
    requires
        rest.len() > 0,
        !crate::strutil::is_digit(rest[0]),
    ensures
        p_u8(dec_digits(x as nat) + rest) == Some::<(u8, int)>(
            (x, dec_digits(x as nat).len() as int),
        ),
{
    let d = dec_digits(x as nat);
    let t = d + rest;
    crate::strutil::lemma_dec_digits_all_digits(x as nat);
    crate::strutil::lemma_dec_digits_val(x as nat);
    lemma_digits_end_exact(d, rest);
    assert(t.subrange(0, d.len() as int) =~= d);
}

/// Parsing printed byte-array items (and the closing bracket) yields the
/// original bytes.
proof fn lemma_p_bytes_items_rt(b: Seq<u8>, rest: Seq<char>)
    requires
        b.len() > 0,
    ensures
        p_bytes_items(bytes_items(b) + seq![']'] + rest) == Some::<(Seq<u8>, int)>(
            (b, (bytes_items(b).len() + 1) as int),
        ),
    decreases b.len(),
{
    let t = bytes_items(b) + seq![']'] + rest;
    let d = dec_digits(b[0] as nat);
    if b.len() == 1 {
        assert(bytes_items(b) == d);
        assert(t =~= d + (seq![']'] + rest));
        assert(!crate::strutil::is_digit(']'));
        lemma_p_u8_rt(b[0], seq![']'] + rest);
        assert(t[d.len() as int] == ']');
        assert(seq![b[0]] =~= b);
    } else {
        let b2 = b.drop_first();
        assert(bytes_items(b) == d + seq![','] + bytes_items(b2));
        assert(t =~= d + (seq![','] + bytes_items(b2) + seq![']'] + rest));
        assert(!crate::strutil::is_digit(','));
        lemma_p_u8_rt(b[0], seq![','] + bytes_items(b2) + seq![']'] + rest);
        assert(t[d.len() as int] == ',');
        assert(t.skip((d.len() + 1) as int) =~= bytes_items(b2) + seq![']'] + rest);
        lemma_p_bytes_items_rt(b2, rest);
        assert(seq![b[0]] + b2 =~= b);
    }
}

/// Parsing a printed byte array yields the original bytes.
proof fn lemma_p_bytes_rt(b: Seq<u8>, rest: Seq<char>)
    ensures
        p_bytes(json_bytes(b) + rest) == Some::<(Seq<u8>, int)>(
            (b, json_bytes(b).len() as int),
        ),
{
    let t = json_bytes(b) + rest;
    assert(t[0] == '[');
    if b.len() == 0 {
        assert(bytes_items(b) =~= Seq::<char>::empty());
        assert(t[1] == ']');
        assert(b =~= Seq::<u8>::empty());
    } else {
        crate::strutil::lemma_dec_digits_all_digits(b[0] as nat);
        let d = dec_digits(b[0] as nat);
        assert(bytes_items(b)[0] == d[0]) by {
            if b.len() > 1 {
                assert(bytes_items(b) == d + seq![','] + bytes_items(b.drop_first()));
            }
        }
        assert(t[1] == bytes_items(b)[0]);
        assert(crate::strutil::is_digit(t[1]));
        assert(t[1] != ']');
        assert(t.skip(1) =~= bytes_items(b) + seq![']'] + rest);
        lemma_p_bytes_items_rt(b, rest);
    }
}

/// Each blob-kind name parses back to its kind.
proof fn lemma_kind_of_kind_str(k: ContentKind)
    ensures
        kind_of(kind_str(k)) == Some(k),
{
    reveal_strlit("Xml");
    reveal_strlit("Json");
    reveal_strlit("Html");
    reveal_strlit("Text");
    reveal_strlit("Binary");
    match k {
        ContentKind::Xml => {},
        ContentKind::Json => {
            assert("Json"@ != "Xml"@) by {
                assert("Json"@.len() == 4 && "Xml"@.len() == 3);
            }
        },
        ContentKind::Html => {
            assert("Html"@ != "Xml"@ && "Html"@ != "Json"@) by {
                assert("Html"@[0] == 'H' && "Json"@[0] == 'J');
                assert("Html"@.len() == 4 && "Xml"@.len() == 3);
            }
        },
        ContentKind::Text => {
            assert("Text"@ != "Xml"@ && "Text"@ != "Json"@ && "Text"@ != "Html"@) by {
                assert("Text"@[0] == 'T' && "Json"@[0] == 'J' && "Html"@[0] == 'H');
                assert("Text"@.len() == 4 && "Xml"@.len() == 3);
            }
        },
        ContentKind::Binary => {
            assert("Binary"@.len() == 6 && "Xml"@.len() == 3 && "Json"@.len() == 4 && "Html"@.len()
                == 4 && "Text"@.len() == 4);
        },
    }
}

/// Parsing a printed blob yields the original blob.
proof fn lemma_p_blob_rt(bv: ContentBlobView, rest: Seq<char>)
    ensures
        p_blob(json_blob(bv) + rest) == Some::<(ContentBlobView, int)>(
            (bv, json_blob(bv).len() as int),
        ),
{
    let t = json_blob(bv) + rest;
    let k0 = "{\"kind\":"@;
    let t1 = json_string(kind_str(bv.kind)) + (",\"bytes\":"@ + (json_bytes(bv.bytes) + ("}"@
        + rest)));
    assert(t =~= k0 + t1);
    lemma_skip_concat(k0, t1);
    lemma_p_string_rt(kind_str(bv.kind), ",\"bytes\":"@ + (json_bytes(bv.bytes) + ("}"@ + rest)));
    lemma_kind_of_kind_str(bv.kind);
    let c1: int = json_string(kind_str(bv.kind)).len() as int;
    let t2 = ",\"bytes\":"@ + (json_bytes(bv.bytes) + ("}"@ + rest));
    assert(t1.skip(c1) =~= t2);
    lemma_skip_concat(",\"bytes\":"@, json_bytes(bv.bytes) + ("}"@ + rest));
    let t3 = json_bytes(bv.bytes) + ("}"@ + rest);
    lemma_p_bytes_rt(bv.bytes, "}"@ + rest);
    let c3: int = json_bytes(bv.bytes).len() as int;
    let t4 = "}"@ + rest;
    assert(t3.skip(c3) =~= t4);
    lemma_skip_concat("}"@, rest);
    assert(t.skip(k0.len() as int) == t1);
    assert(t.skip(k0.len() + c1) =~= t2);
    assert(t.skip(k0.len() + c1 + ",\"bytes\":"@.len()) =~= t3);
    assert(t.skip(k0.len() + c1 + ",\"bytes\":"@.len() + c3) =~= t4);
    assert(ContentBlobView { kind: bv.kind, bytes: bv.bytes } == bv);
}

/// Parsing a printed optional blob yields the original option.
proof fn lemma_p_opt_blob_rt(o: Option<ContentBlobView>, rest: Seq<char>)
    ensures
        p_opt_blob(json_opt_blob(o) + rest) == Some::<(Option<ContentBlobView>, int)>(
            (o, json_opt_blob(o).len() as int),
        ),
{
    match o {
        None => {
            reveal_strlit("null");
            lemma_skip_concat("null"@, rest);
        },
        Some(bv) => {
            let t = json_opt_blob(o) + rest;
            reveal_strlit("null");
            reveal_strlit("{\"kind\":");
            assert(!starts_with(t, "null"@)) by {
                assert(t[0] == "{\"kind\":"@[0]) by {
                    assert(t =~= "{\"kind\":"@ + (json_string(kind_str(bv.kind)) + (",\"bytes\":"@
                        + (json_bytes(bv.bytes) + ("}"@ + rest)))));
                }
                if starts_with(t, "null"@) {
                    assert(t.subrange(0, 4)[0] == 'n');
                }
            }
            lemma_p_blob_rt(bv, rest);
        },
    }
}

/// A field round trip: the key literal, then the printed value.
proof fn lemma_p_field_string_rt(key: Seq<char>, s: Seq<char>, rest: Seq<char>)
    ensures
        p_field_string(key + json_string(s) + rest, key) == Some::<(Seq<char>, int)>(
            (s, (key.len() + json_string(s).len()) as int),
        ),
{
    let t = key + json_string(s) + rest;
    assert(t =~= key + (json_string(s) + rest));
    lemma_skip_concat(key, json_string(s) + rest);
    lemma_p_string_rt(s, rest);
}

proof fn lemma_p_field_opt_string_rt(key: Seq<char>, o: Option<Seq<char>>, rest: Seq<char>)
    ensures
        p_field_opt_string(key + json_opt_string(o) + rest, key) == Some::<
            (Option<Seq<char>>, int),
        >((o, (key.len() + json_opt_string(o).len()) as int)),
{
    let t = key + json_opt_string(o) + rest;
    assert(t =~= key + (json_opt_string(o) + rest));
    lemma_skip_concat(key, json_opt_string(o) + rest);
    lemma_p_opt_string_rt(o, rest);
}

proof fn lemma_p_field_opt_i64_rt(key: Seq<char>, o: Option<i64>, rest: Seq<char>)
    requires
        rest.len() > 0,
        !crate::strutil::is_digit(rest[0]),
    ensures
        p_field_opt_i64(key + json_opt_i64(o) + rest, key) == Some::<(Option<i64>, int)>(
            (o, (key.len() + json_opt_i64(o).len()) as int),
        ),
{
    let t = key + json_opt_i64(o) + rest;
    assert(t =~= key + (json_opt_i64(o) + rest));
    lemma_skip_concat(key, json_opt_i64(o) + rest);
    lemma_p_opt_i64_rt(o, rest);
}

proof fn lemma_p_field_bool_rt(key: Seq<char>, b: bool, rest: Seq<char>)
    ensures
        p_field_bool(key + json_bool(b) + rest, key) == Some::<(bool, int)>(
            (b, (key.len() + json_bool(b).len()) as int),
        ),
{
    let t = key + json_bool(b) + rest;
    assert(t =~= key + (json_bool(b) + rest));
    lemma_skip_concat(key, json_bool(b) + rest);
    lemma_p_bool_rt(b, rest);
}

proof fn lemma_p_field_opt_blob_rt(key: Seq<char>, o: Option<ContentBlobView>, rest: Seq<char>)
    ensures
        p_field_opt_blob(key + json_opt_blob(o) + rest, key) == Some::<
            (Option<ContentBlobView>, int),
        >((o, (key.len() + json_opt_blob(o).len()) as int)),
{
    let t = key + json_opt_blob(o) + rest;
    assert(t =~= key + (json_opt_blob(o) + rest));
    lemma_skip_concat(key, json_opt_blob(o) + rest);
    lemma_p_opt_blob_rt(o, rest);
}

/// Parsing the canonical text of a feed record returns the record: the
/// persisted format loses nothing.
#[verifier::rlimit(100)]
#[verifier::spinoff_prover]
pub proof fn lemma_feed_roundtrip(f: FeedView)
    ensures
        parse_feed_spec(feed_json(f)) == Some(f),
{
    let t = feed_json(f);
    let k0 = "{\"id\":"@;
    let k1 = ",\"url\":"@;
    let k2 = ",\"title\":"@;
    let k3 = ",\"site_url\":"@;
    let k4 = ",\"etag\":"@;
    let k5 = ",\"last_modified\":"@;
    let k6 = ",\"active\":"@;
    let k7 = "}"@;
    let t7 = k7 + Seq::<char>::empty();
    let t6 = k6 + json_bool(f.active) + t7;
    let t5 = k5 + json_opt_string(f.last_modified) + t6;
    let t4 = k4 + json_opt_string(f.etag) + t5;
    let t3 = k3 + json_opt_string(f.site_url) + t4;
    let t2 = k2 + json_opt_string(f.title) + t3;
    let t1 = k1 + json_string(f.url) + t2;
    let t0 = k0 + json_string(f.id) + t1;
    assert(t =~= t0);
    lemma_p_field_string_rt(k0, f.id, t1);
    let c0: int = (k0.len() + json_string(f.id).len()) as int;
    assert(t0.skip(c0 as int) =~= t1);
    lemma_p_field_string_rt(k1, f.url, t2);
    let c1: int = (k1.len() + json_string(f.url).len()) as int;
    assert(t1.skip(c1 as int) =~= t2);
    lemma_p_field_opt_string_rt(k2, f.title, t3);
    let c2: int = (k2.len() + json_opt_string(f.title).len()) as int;
    assert(t2.skip(c2 as int) =~= t3);
    lemma_p_field_opt_string_rt(k3, f.site_url, t4);
    let c3: int = (k3.len() + json_opt_string(f.site_url).len()) as int;
    assert(t3.skip(c3 as int) =~= t4);
    lemma_p_field_opt_string_rt(k4, f.etag, t5);
    let c4: int = (k4.len() + json_opt_string(f.etag).len()) as int;
    assert(t4.skip(c4 as int) =~= t5);
    lemma_p_field_opt_string_rt(k5, f.last_modified, t6);
    let c5: int = (k5.len() + json_opt_string(f.last_modified).len()) as int;
    assert(t5.skip(c5 as int) =~= t6);
    lemma_p_field_bool_rt(k6, f.active, t7);
    let c6: int = (k6.len() + json_bool(f.active).len()) as int;
    assert(t6.skip(c6 as int) =~= t7);
    lemma_skip_concat(k7, Seq::<char>::empty());
    assert(t7 =~= k7 + Seq::<char>::empty());
    let c7: int = k7.len() as int;
    assert(t.skip(c0) == t1);
    assert(t.skip(c0).skip(c1) =~= t.skip(c0 + c1));
    assert(t.skip(c0 + c1) == t2);
    assert(t.skip(c0 + c1).skip(c2) =~= t.skip(c0 + c1 + c2));
    assert(t.skip(c0 + c1 + c2) == t3);
    assert(t.skip(c0 + c1 + c2).skip(c3) =~= t.skip(c0 + c1 + c2 + c3));
    assert(t.skip(c0 + c1 + c2 + c3) == t4);
    assert(t.skip(c0 + c1 + c2 + c3).skip(c4) =~= t.skip(c0 + c1 + c2 + c3 + c4));
    assert(t.skip(c0 + c1 + c2 + c3 + c4) == t5);
    assert(t.skip(c0 + c1 + c2 + c3 + c4).skip(c5) =~= t.skip(c0 + c1 + c2 + c3 + c4 + c5));
    assert(t.skip(c0 + c1 + c2 + c3 + c4 + c5) == t6);
    assert(t.skip(c0 + c1 + c2 + c3 + c4 + c5).skip(c6) =~= t.skip(
        c0 + c1 + c2 + c3 + c4 + c5 + c6,
    ));
    assert(t.skip(c0 + c1 + c2 + c3 + c4 + c5 + c6) == t7);
    assert(p_feed(t) == Some::<(FeedView, int)>(
        (
            FeedView {
                id: f.id,
                url: f.url,
                title: f.title,
                site_url: f.site_url,
                etag: f.etag,
                last_modified: f.last_modified,
                active: f.active,
            },
            c0 + c1 + c2 + c3 + c4 + c5 + c6 + c7,
        ),
    ));
    assert(FeedView {
        id: f.id,
        url: f.url,
        title: f.title,
        site_url: f.site_url,
        etag: f.etag,
        last_modified: f.last_modified,
        active: f.active,
    } == f);
    assert(c0 + c1 + c2 + c3 + c4 + c5 + c6 + c7 == t.len());
}

/// Round trip for the tail of an entry record.
proof fn lemma_p_entry_tail_rt(
    pts: Option<i64>,
    uts: Option<i64>,
    sum: Option<Seq<char>>,
    content: Option<ContentBlobView>,
)
    ensures
        ({
            let k4 = ",\"published_ts\":"@;
            let k5 = ",\"updated_ts\":"@;
            let k6 = ",\"summary\":"@;
            let k7 = ",\"content\":"@;
            let k8 = "}"@;
            let text = k4 + json_opt_i64(pts) + (k5 + json_opt_i64(uts) + (k6 + json_opt_string(
                sum,
            ) + (k7 + json_opt_blob(content) + k8)));
            p_entry_tail(text) == Some::<
                ((Option<i64>, Option<i64>, Option<Seq<char>>, Option<ContentBlobView>), int),
            >(((pts, uts, sum, content), text.len() as int))
        }),
{
    let k4 = ",\"published_ts\":"@;
    let k5 = ",\"updated_ts\":"@;
    let k6 = ",\"summary\":"@;
    let k7 = ",\"content\":"@;
    let k8 = "}"@;
    let t8 = k8 + Seq::<char>::empty();
    let t7 = k7 + json_opt_blob(content) + t8;
    let t6 = k6 + json_opt_string(sum) + t7;
    let t5 = k5 + json_opt_i64(uts) + t6;
    let t4 = k4 + json_opt_i64(pts) + t5;
    let text = k4 + json_opt_i64(pts) + (k5 + json_opt_i64(uts) + (k6 + json_opt_string(sum) + (k7
        + json_opt_blob(content) + k8)));
    assert(text =~= t4);
    reveal_strlit(",\"updated_ts\":");
    reveal_strlit(",\"summary\":");
    assert(t5.len() > 0 && t5[0] == ',') by {
        assert(t5[0] == k5[0]);
    }
    assert(t6.len() > 0 && t6[0] == ',') by {
        assert(t6[0] == k6[0]);
    }
    assert(!crate::strutil::is_digit(','));
    lemma_p_field_opt_i64_rt(k4, pts, t5);
    let c4: int = (k4.len() + json_opt_i64(pts).len()) as int;
    assert(t4.skip(c4) =~= t5);
    lemma_p_field_opt_i64_rt(k5, uts, t6);
    let c5: int = (k5.len() + json_opt_i64(uts).len()) as int;
    assert(t5.skip(c5) =~= t6);
    lemma_p_field_opt_string_rt(k6, sum, t7);
    let c6: int = (k6.len() + json_opt_string(sum).len()) as int;
    assert(t6.skip(c6) =~= t7);
    lemma_p_field_opt_blob_rt(k7, content, t8);
    let c7: int = (k7.len() + json_opt_blob(content).len()) as int;
    assert(t7.skip(c7) =~= t8);
    lemma_skip_concat(k8, Seq::<char>::empty());
    assert(t8 =~= k8 + Seq::<char>::empty());
    let c8: int = k8.len() as int;
    let t = t4;
    assert(t.skip(c4) == t5);
    assert(t.skip(c4).skip(c5) =~= t.skip(c4 + c5));
    assert(t.skip(c4 + c5) == t6);
    assert(t.skip(c4 + c5).skip(c6) =~= t.skip(c4 + c5 + c6));
    assert(t.skip(c4 + c5 + c6) == t7);
    assert(t.skip(c4 + c5 + c6).skip(c7) =~= t.skip(c4 + c5 + c6 + c7));
    assert(t.skip(c4 + c5 + c6 + c7) == t8);
    assert(p_entry_tail(t) == Some::<
        ((Option<i64>, Option<i64>, Option<Seq<char>>, Option<ContentBlobView>), int),
    >(((pts, uts, sum, content), c4 + c5 + c6 + c7 + c8)));
    assert(c4 + c5 + c6 + c7 + c8 == t.len());
}

/// How the canonical entry text decomposes, right-nested, so each field's
/// round trip can peel one layer at a time.
#[verifier::rlimit(100)]
#[verifier::spinoff_prover]
proof fn lemma_entry_json_shape(e: EntryView)
    ensures
        entry_json(e) == "{\"id\":"@ + json_string(e.id) + (",\"feed\":"@ + json_string(e.feed)
            + (",\"url\":"@ + json_opt_string(e.url) + (",\"title\":"@ + json_opt_string(e.title)
            + (",\"published_ts\":"@ + json_opt_i64(e.published_ts) + (",\"updated_ts\":"@
            + json_opt_i64(e.updated_ts) + (",\"summary\":"@ + json_opt_string(e.summary) + (
        ",\"content\":"@ + json_opt_blob(e.content) + "}"@))))))),
{
    // reassociate in two medium steps: first split off the head fields,
    // then nest them
    let k0 = "{\"id\":"@;
    let v0 = json_string(e.id);
    let k1 = ",\"feed\":"@;
    let v1 = json_string(e.feed);
    let k2 = ",\"url\":"@;
    let v2 = json_opt_string(e.url);
    let k3 = ",\"title\":"@;
    let v3 = json_opt_string(e.title);
    let k4 = ",\"published_ts\":"@;
    let v4 = json_opt_i64(e.published_ts);
    let k5 = ",\"updated_ts\":"@;
    let v5 = json_opt_i64(e.updated_ts);
    let k6 = ",\"summary\":"@;
    let v6 = json_opt_string(e.summary);
    let k7 = ",\"content\":"@;
    let v7 = json_opt_blob(e.content);
    let k8 = "}"@;
    let head = k0 + v0 + k1 + v1 + k2 + v2 + k3 + v3;
    let tail = k4 + v4 + (k5 + v5 + (k6 + v6 + (k7 + v7 + k8)));
    assert(entry_json(e) =~= head + tail) by {
        assert(entry_json(e) =~= (k0 + v0 + k1 + v1 + k2 + v2 + k3 + v3) + (k4 + v4 + (k5 + v5 + (
        k6 + v6 + (k7 + v7 + k8)))));
    }
    assert(head + tail =~= k0 + v0 + (k1 + v1 + (k2 + v2 + (k3 + v3 + tail))));
}

/// Parsing the canonical text of an entry record returns the record.
#[verifier::rlimit(100)]
#[verifier::spinoff_prover]
pub proof fn lemma_entry_roundtrip(e: EntryView)
    ensures
        parse_entry_spec(entry_json(e)) == Some(e),
{
    let t = entry_json(e);
    let k0 = "{\"id\":"@;
    let k1 = ",\"feed\":"@;
    let k2 = ",\"url\":"@;
    let k3 = ",\"title\":"@;
    let k4 = ",\"published_ts\":"@;
    let k5 = ",\"updated_ts\":"@;
    let k6 = ",\"summary\":"@;
    let k7 = ",\"content\":"@;
    let k8 = "}"@;
    let t4 = k4 + json_opt_i64(e.published_ts) + (k5 + json_opt_i64(e.updated_ts) + (k6
        + json_opt_string(e.summary) + (k7 + json_opt_blob(e.content) + k8)));
    let t3 = k3 + json_opt_string(e.title) + t4;
    let t2 = k2 + json_opt_string(e.url) + t3;
    let t1 = k1 + json_string(e.feed) + t2;
    let t0 = k0 + json_string(e.id) + t1;
    lemma_entry_json_shape(e);
    assert(t4 =~= k4 + json_opt_i64(e.published_ts) + (k5 + json_opt_i64(e.updated_ts) + (k6
        + json_opt_string(e.summary) + (k7 + json_opt_blob(e.content) + k8))));
    assert(t == t0);
    lemma_p_field_string_rt(k0, e.id, t1);
    let c0: int = (k0.len() + json_string(e.id).len()) as int;
    assert(t0.skip(c0) =~= t1);
    lemma_p_field_string_rt(k1, e.feed, t2);
    let c1: int = (k1.len() + json_string(e.feed).len()) as int;
    assert(t1.skip(c1) =~= t2);
    lemma_p_field_opt_string_rt(k2, e.url, t3);
    let c2: int = (k2.len() + json_opt_string(e.url).len()) as int;
    assert(t2.skip(c2) =~= t3);
    lemma_p_field_opt_string_rt(k3, e.title, t4);
    let c3: int = (k3.len() + json_opt_string(e.title).len()) as int;
    assert(t3.skip(c3) =~= t4);
    lemma_p_entry_tail_rt(e.published_ts, e.updated_ts, e.summary, e.content);
    assert(t.skip(c0) == t1);
    assert(t.skip(c0).skip(c1) =~= t.skip(c0 + c1));
    assert(t.skip(c0 + c1) == t2);
    assert(t.skip(c0 + c1).skip(c2) =~= t.skip(c0 + c1 + c2));
    assert(t.skip(c0 + c1 + c2) == t3);
    assert(t.skip(c0 + c1 + c2).skip(c3) =~= t.skip(c0 + c1 + c2 + c3));
    assert(t.skip(c0 + c1 + c2 + c3) == t4);
    let c4 = t4.len() as int;
    assert(p_entry(t) == Some::<(EntryView, int)>(
        (
            EntryView {
                id: e.id,
                feed: e.feed,
                url: e.url,
                title: e.title,
                published_ts: e.published_ts,
                updated_ts: e.updated_ts,
                summary: e.summary,
                content: e.content,
            },
            c0 + c1 + c2 + c3 + c4,
        ),
    ));
    assert(EntryView {
        id: e.id,
        feed: e.feed,
        url: e.url,
        title: e.title,
        published_ts: e.published_ts,
        updated_ts: e.updated_ts,
        summary: e.summary,
        content: e.content,
    } == e);
    assert(c0 + c1 + c2 + c3 + c4 == t.len());
}

} // verus!

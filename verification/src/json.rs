//! The snapshot format of the vault index: a pretty-printed JSON array of
//! objects, one per record, with fields `name`, `original_extension`,
//! `encrypted_path`, `size`, `created_at`. The writer and the parser are both
//! verified against the same spec-level definitions, and parsing a written
//! snapshot is proved to give back exactly the records that were written.

use crate::hexid::{hex_digit, hex_digit_char};
use crate::record::{EncryptedRecord, RecordV, rec_views};
use crate::strutil::push_char;
use vstd::prelude::*;
use vstd::string::StringExecFns;

verus! {

broadcast use vstd::string::group_string_axioms;

// ---------------------------------------------------------------------------
// Spec-level emission
// ---------------------------------------------------------------------------
/// How one character is written inside a JSON string: quotes and backslashes
/// get a backslash escape, control characters get their short escape or a
/// `\u00XX` escape, and every other character stands for itself.
pub open spec fn esc_char(c: char) -> Seq<char> {
    if c == '"' {
        seq!['\\', '"']
    } else if c == '\\' {
        seq!['\\', '\\']
    } else if c == '\n' {
        seq!['\\', 'n']
    } else if c == '\t' {
        seq!['\\', 't']
    } else if c == '\r' {
        seq!['\\', 'r']
    } else if c == '\u{8}' {
        seq!['\\', 'b']
    } else if c == '\u{c}' {
        seq!['\\', 'f']
    } else if (c as u32) < 32 {
        seq!['\\', 'u', '0', '0', hex_digit((c as u32 / 16) as int), hex_digit(
            (c as u32 % 16) as int,
        )]
    } else {
        seq![c]
    }
}

/// The escaped body of a JSON string.
pub open spec fn esc(s: Seq<char>) -> Seq<char>
    decreases s.len(),
{
    if s.len() == 0 {
        Seq::empty()
    } else {
        esc_char(s[0]) + esc(s.drop_first())
    }
}

/// A JSON string: quote, escaped body, quote.
pub open spec fn jstr(s: Seq<char>) -> Seq<char> {
    seq!['"'] + (esc(s) + seq!['"'])
}

/// The decimal digit for a value below 10.
pub open spec fn dec_digit(d: int) -> char {
    if d == 0 {
        '0'
    } else if d == 1 {
        '1'
    } else if d == 2 {
        '2'
    } else if d == 3 {
        '3'
    } else if d == 4 {
        '4'
    } else if d == 5 {
        '5'
    } else if d == 6 {
        '6'
    } else if d == 7 {
        '7'
    } else if d == 8 {
        '8'
    } else {
        '9'
    }
}

/// The decimal rendering of `n`, without leading zeroes.
pub open spec fn dec_of(n: nat) -> Seq<char>
    decreases n,
{
    if n < 10 {
        seq![dec_digit(n as int)]
    } else {
        dec_of(n / 10) + seq![dec_digit((n % 10) as int)]
    }
}

/// The text of one record object, as it stands inside the array (the two
/// spaces of indentation before the opening brace belong to the array text).
pub open spec fn jrecord(r: RecordV) -> Seq<char> {
    "{\n    \"name\": "@ + (jstr(r.name) + (",\n    \"original_extension\": "@ + (jstr(
        r.original_extension,
    ) + (",\n    \"encrypted_path\": "@ + (jstr(r.encrypted_path) + (",\n    \"size\": "@ + (dec_of(
        r.size as nat,
    ) + (",\n    \"created_at\": "@ + (jstr(r.created_at) + "\n  }"@)))))))))
}

/// The text from the first record of `rs` to the closing bracket.
pub open spec fn jitems(rs: Seq<RecordV>) -> Seq<char>
    decreases rs.len(),
{
    if rs.len() <= 1 {
        jrecord(rs[0]) + "\n]"@
    } else {
        jrecord(rs[0]) + (",\n  "@ + jitems(rs.drop_first()))
    }
}

/// The full snapshot text for a record sequence.
pub open spec fn jrecords(rs: Seq<RecordV>) -> Seq<char> {
    if rs.len() == 0 {
        "[]"@
    } else {
        "[\n  "@ + jitems(rs)
    }
}

// ---------------------------------------------------------------------------
// Verified writer
// ---------------------------------------------------------------------------
proof fn lemma_esc_append(a: Seq<char>, b: Seq<char>)
    ensures
        esc(a + b) == esc(a) + esc(b),
    decreases a.len(),
{
    if a.len() == 0 {
        assert(a + b =~= b);
        assert(esc(a) + esc(b) =~= esc(b));
    } else {
        assert((a + b)[0] == a[0]);
        assert((a + b).drop_first() =~= a.drop_first() + b);
        lemma_esc_append(a.drop_first(), b);
        assert(esc(a + b) =~= esc(a) + esc(b));
    }
}

fn emit_jstr(out: &mut String, s: &str)
    ensures
        final(out)@ == old(out)@ + jstr(s@),
{
    push_char(out, '"');
    let n = s.unicode_len();
    let mut i: usize = 0;
    while i < n
        invariant
            n == s@.len(),
            i <= n,
            out@ == old(out)@.push('"') + esc(s@.take(i as int)),
        decreases n - i,
    {
        let c = s.get_char(i);
        let ghost pre = out@;
        if c == '"' || c == '\\' {
            push_char(out, '\\');
            push_char(out, c);
        } else if c == '\n' {
            push_char(out, '\\');
            push_char(out, 'n');
        } else if c == '\t' {
            push_char(out, '\\');
            push_char(out, 't');
        } else if c == '\r' {
            push_char(out, '\\');
            push_char(out, 'r');
        } else if c == '\u{8}' {
            push_char(out, '\\');
            push_char(out, 'b');
        } else if c == '\u{c}' {
            push_char(out, '\\');
            push_char(out, 'f');
        } else if (c as u32) < 32 {
            let v = c as u32;
            push_char(out, '\\');
            push_char(out, 'u');
            push_char(out, '0');
            push_char(out, '0');
            push_char(out, hex_digit_char((v / 16) as u64));
            push_char(out, hex_digit_char((v % 16) as u64));
        } else {
            push_char(out, c);
        }
        proof {
            assert(s@.take(i + 1) =~= s@.take(i as int) + seq![s@[i as int]]);
            lemma_esc_append(s@.take(i as int), seq![s@[i as int]]);
            assert(seq![s@[i as int]].drop_first() =~= Seq::<char>::empty());
            assert(esc(Seq::<char>::empty()) =~= Seq::<char>::empty());
            assert(esc(seq![s@[i as int]]) =~= esc_char(c));
            assert(out@ =~= pre + esc_char(c));
            assert(out@ =~= old(out)@.push('"') + esc(s@.take(i + 1)));
        }
        i = i + 1;
    }
    push_char(out, '"');
    proof {
        assert(s@.take(n as int) =~= s@);
        assert(out@ =~= old(out)@ + jstr(s@));
    }
}

fn dec_digit_char(d: u64) -> (c: char)
    requires
        d < 10,
    ensures
        c == dec_digit(d as int),
{
    if d == 0 {
        '0'
    } else if d == 1 {
        '1'
    } else if d == 2 {
        '2'
    } else if d == 3 {
        '3'
    } else if d == 4 {
        '4'
    } else if d == 5 {
        '5'
    } else if d == 6 {
        '6'
    } else if d == 7 {
        '7'
    } else if d == 8 {
        '8'
    } else {
        '9'
    }
}

fn emit_u64(out: &mut String, n: u64)
    ensures
        final(out)@ == old(out)@ + dec_of(n as nat),
    decreases n,
{
    if n < 10 {
        push_char(out, dec_digit_char(n));
        proof {
            assert(out@ =~= old(out)@ + dec_of(n as nat));
        }
    } else {
        emit_u64(out, n / 10);
        push_char(out, dec_digit_char(n % 10));
        proof {
            assert(out@ =~= old(out)@ + dec_of(n as nat));
        }
    }
}

fn emit_record(out: &mut String, r: &EncryptedRecord)
    ensures
        final(out)@ == old(out)@ + jrecord(r@),
{
    out.append("{\n    \"name\": ");
    emit_jstr(out, r.name.as_str());
    out.append(",\n    \"original_extension\": ");
    emit_jstr(out, r.original_extension.as_str());
    out.append(",\n    \"encrypted_path\": ");
    emit_jstr(out, r.encrypted_path.as_str());
    out.append(",\n    \"size\": ");
    emit_u64(out, r.size);
    out.append(",\n    \"created_at\": ");
    emit_jstr(out, r.created_at.as_str());
    out.append("\n  }");
    proof {
        assert(out@ =~= old(out)@ + jrecord(r@));
    }
}

fn emit_items(out: &mut String, records: &Vec<EncryptedRecord>, idx: usize)
    requires
        idx < records@.len(),
    ensures
        final(out)@ == old(out)@ + jitems(rec_views(records@).skip(idx as int)),
    decreases records@.len() - idx,
{
    let ghost rv = rec_views(records@).skip(idx as int);
    proof {
        assert(rv[0] == records@[idx as int]@);
    }
    let n = records.len();
    emit_record(out, &records[idx]);
    if idx + 1 == n {
        out.append("\n]");
        proof {
            assert(rv.len() == 1);
            assert(out@ =~= old(out)@ + jitems(rv));
        }
    } else {
        out.append(",\n  ");
        emit_items(out, records, idx + 1);
        proof {
            assert(rec_views(records@).skip(idx + 1) =~= rv.drop_first());
            assert(out@ =~= old(out)@ + jitems(rv));
        }
    }
}

/// Serialize the full ordered record sequence as the snapshot text.
pub fn write_snapshot(records: &Vec<EncryptedRecord>) -> (out: String)
    ensures
        out@ == jrecords(rec_views(records@)),
{
    let mut out = String::new();
    if records.len() == 0 {
        out.append("[]");
        proof {
            assert(rec_views(records@).len() == 0);
            assert(out@ =~= jrecords(rec_views(records@)));
        }
    } else {
        out.append("[\n  ");
        emit_items(&mut out, records, 0);
        proof {
            assert(rec_views(records@).skip(0) =~= rec_views(records@));
            assert(out@ =~= jrecords(rec_views(records@)));
        }
    }
    out
}

} // verus!

verus! {

// ---------------------------------------------------------------------------
// Spec-level parsing
// ---------------------------------------------------------------------------
/// JSON whitespace.
pub open spec fn is_ws(c: char) -> bool {
    c == ' ' || c == '\n' || c == '\t' || c == '\r'
}

/// The first position at or after `i` holding a non-whitespace character
/// (or the end of the text).
pub open spec fn ws_end(t: Seq<char>, i: int) -> int
    decreases t.len() - i,
{
    if i < 0 || i >= t.len() {
        i
    } else if is_ws(t[i]) {
        ws_end(t, i + 1)
    } else {
        i
    }
}

/// Match the exact characters of `lit` at position `i`.
pub open spec fn parse_lit(t: Seq<char>, i: int, lit: Seq<char>) -> Option<int>
    decreases lit.len(),
{
    if lit.len() == 0 {
        Some(i)
    } else if 0 <= i < t.len() && t[i] == lit[0] {
        parse_lit(t, i + 1, lit.drop_first())
    } else {
        None
    }
}

/// The character stood for by a backslash escape.
pub open spec fn esc_code(c: char) -> Option<char> {
    if c == '"' {
        Some('"')
    } else if c == '\\' {
        Some('\\')
    } else if c == '/' {
        Some('/')
    } else if c == 'n' {
        Some('\n')
    } else if c == 't' {
        Some('\t')
    } else if c == 'r' {
        Some('\r')
    } else if c == 'b' {
        Some('\u{0008}')
    } else if c == 'f' {
        Some('\u{000C}')
    } else {
        None
    }
}

/// The control character stood for by the two hex digits of a `\u00XX`
/// escape, for codes below 32.
pub open spec fn unhex_control(hi: char, lo: char) -> Option<char> {
    if hi == '0' && lo == '0' {
        Some('\u{0}')
    } else if hi == '0' && lo == '1' {
        Some('\u{1}')
    } else if hi == '0' && lo == '2' {
        Some('\u{2}')
    } else if hi == '0' && lo == '3' {
        Some('\u{3}')
    } else if hi == '0' && lo == '4' {
        Some('\u{4}')
    } else if hi == '0' && lo == '5' {
        Some('\u{5}')
    } else if hi == '0' && lo == '6' {
        Some('\u{6}')
    } else if hi == '0' && lo == '7' {
        Some('\u{7}')
    } else if hi == '0' && lo == '8' {
        Some('\u{8}')
    } else if hi == '0' && lo == '9' {
        Some('\u{9}')
    } else if hi == '0' && lo == 'a' {
        Some('\u{a}')
    } else if hi == '0' && lo == 'b' {
        Some('\u{b}')
    } else if hi == '0' && lo == 'c' {
        Some('\u{c}')
    } else if hi == '0' && lo == 'd' {
        Some('\u{d}')
    } else if hi == '0' && lo == 'e' {
        Some('\u{e}')
    } else if hi == '0' && lo == 'f' {
        Some('\u{f}')
    } else if hi == '1' && lo == '0' {
        Some('\u{10}')
    } else if hi == '1' && lo == '1' {
        Some('\u{11}')
    } else if hi == '1' && lo == '2' {
        Some('\u{12}')
    } else if hi == '1' && lo == '3' {
        Some('\u{13}')
    } else if hi == '1' && lo == '4' {
        Some('\u{14}')
    } else if hi == '1' && lo == '5' {
        Some('\u{15}')
    } else if hi == '1' && lo == '6' {
        Some('\u{16}')
    } else if hi == '1' && lo == '7' {
        Some('\u{17}')
    } else if hi == '1' && lo == '8' {
        Some('\u{18}')
    } else if hi == '1' && lo == '9' {
        Some('\u{19}')
    } else if hi == '1' && lo == 'a' {
        Some('\u{1a}')
    } else if hi == '1' && lo == 'b' {
        Some('\u{1b}')
    } else if hi == '1' && lo == 'c' {
        Some('\u{1c}')
    } else if hi == '1' && lo == 'd' {
        Some('\u{1d}')
    } else if hi == '1' && lo == 'e' {
        Some('\u{1e}')
    } else if hi == '1' && lo == 'f' {
        Some('\u{1f}')
    } else if hi == '0' && lo == 'A' {
        Some('\u{a}')
    } else if hi == '0' && lo == 'B' {
        Some('\u{b}')
    } else if hi == '0' && lo == 'C' {
        Some('\u{c}')
    } else if hi == '0' && lo == 'D' {
        Some('\u{d}')
    } else if hi == '0' && lo == 'E' {
        Some('\u{e}')
    } else if hi == '0' && lo == 'F' {
        Some('\u{f}')
    } else if hi == '1' && lo == 'A' {
        Some('\u{1a}')
    } else if hi == '1' && lo == 'B' {
        Some('\u{1b}')
    } else if hi == '1' && lo == 'C' {
        Some('\u{1c}')
    } else if hi == '1' && lo == 'D' {
        Some('\u{1d}')
    } else if hi == '1' && lo == 'E' {
        Some('\u{1e}')
    } else if hi == '1' && lo == 'F' {
        Some('\u{1f}')
    } else {
        None
    }
}

/// The body of a JSON string, read from just after the opening quote to the
/// closing quote; yields the unescaped characters.
pub open spec fn parse_jstr_body(t: Seq<char>, i: int) -> Option<(Seq<char>, int)>
    decreases t.len() - i,
{
    if i < 0 || i >= t.len() {
        None
    } else if t[i] == '"' {
        Some((Seq::empty(), i + 1))
    } else if t[i] == '\\' {
        if i + 1 >= t.len() {
            None
        } else if t[i + 1] == 'u' {
            if i + 5 < t.len() && t[i + 2] == '0' && t[i + 3] == '0' {
                match unhex_control(t[i + 4], t[i + 5]) {
                    Some(c) => match parse_jstr_body(t, i + 6) {
                        Some(sj) => Some((seq![c] + sj.0, sj.1)),
                        None => None,
                    },
                    None => None,
                }
            } else {
                None
            }
        } else {
            match esc_code(t[i + 1]) {
                Some(c) => match parse_jstr_body(t, i + 2) {
                    Some(sj) => Some((seq![c] + sj.0, sj.1)),
                    None => None,
                },
                None => None,
            }
        }
    } else {
        match parse_jstr_body(t, i + 1) {
            Some(sj) => Some((seq![t[i]] + sj.0, sj.1)),
            None => None,
        }
    }
}

/// A JSON string at position `i`.
pub open spec fn parse_jstr(t: Seq<char>, i: int) -> Option<(Seq<char>, int)> {
    if 0 <= i < t.len() && t[i] == '"' {
        parse_jstr_body(t, i + 1)
    } else {
        None
    }
}

/// A decimal digit.
pub open spec fn is_digit(c: char) -> bool {
    48 <= c as u32 && c as u32 <= 57
}

/// The value of one decimal digit character.
pub open spec fn digit_val(c: char) -> int {
    c as u32 - 48
}

/// The end of the run of decimal digits starting at `i`.
pub open spec fn run_end(t: Seq<char>, i: int) -> int
    decreases t.len() - i,
{
    if i < 0 || i >= t.len() {
        i
    } else if is_digit(t[i]) {
        run_end(t, i + 1)
    } else {
        i
    }
}

/// The value of a digit string, most significant digit first.
pub open spec fn val_of(ds: Seq<char>) -> int
    decreases ds.len(),
{
    if ds.len() == 0 {
        0
    } else {
        val_of(ds.drop_last()) * 10 + digit_val(ds.last())
    }
}

/// A JSON number at position `i`, restricted to the unsigned 64-bit range.
pub open spec fn parse_u64(t: Seq<char>, i: int) -> Option<(u64, int)> {
    let e = run_end(t, i);
    if e == i {
        None
    } else if val_of(t.subrange(i, e)) > u64::MAX as int {
        None
    } else {
        Some((val_of(t.subrange(i, e)) as u64, e))
    }
}

/// Whitespace, then a comma; yields the position after the comma.
pub open spec fn parse_comma(t: Seq<char>, i: int) -> Option<int> {
    let j = ws_end(t, i);
    if j < t.len() && t[j] == ',' {
        Some(j + 1)
    } else {
        None
    }
}

/// Whitespace, the quoted key, whitespace, a colon; yields the position of
/// the value (after any further whitespace).
pub open spec fn parse_key(t: Seq<char>, i: int, key: Seq<char>) -> Option<int> {
    let j = ws_end(t, i);
    match parse_lit(t, j, key) {
        Some(k) => {
            let m = ws_end(t, k);
            if m < t.len() && t[m] == ':' {
                Some(ws_end(t, m + 1))
            } else {
                None
            }
        },
        None => None,
    }
}

/// A comma, a key, and a string value.
pub open spec fn parse_str_field(t: Seq<char>, i: int, key: Seq<char>) -> Option<(Seq<char>, int)> {
    match parse_comma(t, i) {
        Some(c) => match parse_key(t, c, key) {
            Some(p) => parse_jstr(t, p),
            None => None,
        },
        None => None,
    }
}

/// A comma, a key, and an unsigned number value.
pub open spec fn parse_num_field(t: Seq<char>, i: int, key: Seq<char>) -> Option<(u64, int)> {
    match parse_comma(t, i) {
        Some(c) => match parse_key(t, c, key) {
            Some(p) => parse_u64(t, p),
            None => None,
        },
        None => None,
    }
}

/// One record object: the five fields in snapshot order between braces.
pub open spec fn parse_record(t: Seq<char>, i: int) -> Option<(RecordV, int)> {
    let j0 = ws_end(t, i);
    if j0 < t.len() && t[j0] == '{' {
        match parse_key(t, j0 + 1, "\"name\""@) {
            Some(p1) => match parse_jstr(t, p1) {
                Some((name, q1)) => match parse_str_field(t, q1, "\"original_extension\""@) {
                    Some((ext, q2)) => match parse_str_field(t, q2, "\"encrypted_path\""@) {
                        Some((path, q3)) => match parse_num_field(t, q3, "\"size\""@) {
                            Some((size, q4)) => match parse_str_field(t, q4, "\"created_at\""@) {
                                Some((created, q5)) => {
                                    let e = ws_end(t, q5);
                                    if e < t.len() && t[e] == '}' {
                                        Some(
                                            (
                                                RecordV {
                                                    name: name,
                                                    original_extension: ext,
                                                    encrypted_path: path,
                                                    size: size,
                                                    created_at: created,
                                                },
                                                e + 1,
                                            ),
                                        )
                                    } else {
                                        None
                                    }
                                },
                                None => None,
                            },
                            None => None,
                        },
                        None => None,
                    },
                    None => None,
                },
                None => None,
            },
            None => None,
        }
    } else {
        None
    }
}

/// One or more records separated by commas, ending at the closing bracket.
pub open spec fn parse_items(t: Seq<char>, i: int) -> Option<(Seq<RecordV>, int)>
    decreases t.len() - i,
{
    match parse_record(t, i) {
        Some((r, j)) => {
            let k = ws_end(t, j);
            if i < j && j <= k && k < t.len() && t[k] == ',' {
                match parse_items(t, k + 1) {
                    Some((rs, m)) => Some((seq![r] + rs, m)),
                    None => None,
                }
            } else if k < t.len() && t[k] == ']' {
                Some((seq![r], k + 1))
            } else {
                None
            }
        },
        None => None,
    }
}

/// A whole snapshot: a JSON array of record objects with nothing but
/// whitespace around it.
pub open spec fn parse_snapshot(t: Seq<char>) -> Option<Seq<RecordV>> {
    let i = ws_end(t, 0);
    if i < t.len() && t[i] == '[' {
        let j = ws_end(t, i + 1);
        if j < t.len() && t[j] == ']' {
            if ws_end(t, j + 1) == t.len() {
                Some(Seq::empty())
            } else {
                None
            }
        } else {
            match parse_items(t, j) {
                Some((rs, m)) => {
                    if ws_end(t, m) == t.len() {
                        Some(rs)
                    } else {
                        None
                    }
                },
                None => None,
            }
        }
    } else {
        None
    }
}

} // verus!

verus! {

// ---------------------------------------------------------------------------
// Verified parser
// ---------------------------------------------------------------------------
fn e_ws_end(t: &Vec<char>, i: usize) -> (r: usize)
    requires
        i <= t@.len(),
    ensures
        r == ws_end(t@, i as int),
        i <= r <= t@.len(),
    decreases t@.len() - i,
{
    if i >= t.len() {
        i
    } else {
        let c = t[i];
        if c == ' ' || c == '\n' || c == '\t' || c == '\r' {
            e_ws_end(t, i + 1)
        } else {
            i
        }
    }
}

fn e_parse_lit(t: &Vec<char>, i: usize, lit: &str, k: usize) -> (r: Option<usize>)
    requires
        i <= t@.len(),
        k <= lit@.len(),
    ensures
        r matches Some(j) ==> parse_lit(t@, i as int, lit@.skip(k as int)) == Some(j as int)
            && i <= j <= t@.len(),
        r is None ==> parse_lit(t@, i as int, lit@.skip(k as int)) is None,
    decreases lit@.len() - k,
{
    let n = lit.unicode_len();
    if k == n {
        proof {
            assert(lit@.skip(k as int) =~= Seq::<char>::empty());
        }
        Some(i)
    } else if i < t.len() && t[i] == lit.get_char(k) {
        proof {
            assert(lit@.skip(k as int)[0] == lit@[k as int]);
            assert(lit@.skip(k as int).drop_first() =~= lit@.skip(k as int + 1));
        }
        e_parse_lit(t, i + 1, lit, k + 1)
    } else {
        proof {
            assert(lit@.skip(k as int).len() > 0);
            assert(lit@.skip(k as int)[0] == lit@[k as int]);
        }
        None
    }
}

fn e_esc_code(c: char) -> (r: Option<char>)
    ensures
        r == esc_code(c),
{
    if c == '"' {
        Some('"')
    } else if c == '\\' {
        Some('\\')
    } else if c == '/' {
        Some('/')
    } else if c == 'n' {
        Some('\n')
    } else if c == 't' {
        Some('\t')
    } else if c == 'r' {
        Some('\r')
    } else if c == 'b' {
        Some('\u{0008}')
    } else if c == 'f' {
        Some('\u{000C}')
    } else {
        None
    }
}

fn unhex_control_exec(hi: char, lo: char) -> (r: Option<char>)
    ensures
        r == unhex_control(hi, lo),
{
    if hi == '0' && lo == '0' {
        Some('\u{0}')
    } else if hi == '0' && lo == '1' {
        Some('\u{1}')
    } else if hi == '0' && lo == '2' {
        Some('\u{2}')
    } else if hi == '0' && lo == '3' {
        Some('\u{3}')
    } else if hi == '0' && lo == '4' {
        Some('\u{4}')
    } else if hi == '0' && lo == '5' {
        Some('\u{5}')
    } else if hi == '0' && lo == '6' {
        Some('\u{6}')
    } else if hi == '0' && lo == '7' {
        Some('\u{7}')
    } else if hi == '0' && lo == '8' {
        Some('\u{8}')
    } else if hi == '0' && lo == '9' {
        Some('\u{9}')
    } else if hi == '0' && lo == 'a' {
        Some('\u{a}')
    } else if hi == '0' && lo == 'b' {
        Some('\u{b}')
    } else if hi == '0' && lo == 'c' {
        Some('\u{c}')
    } else if hi == '0' && lo == 'd' {
        Some('\u{d}')
    } else if hi == '0' && lo == 'e' {
        Some('\u{e}')
    } else if hi == '0' && lo == 'f' {
        Some('\u{f}')
    } else if hi == '1' && lo == '0' {
        Some('\u{10}')
    } else if hi == '1' && lo == '1' {
        Some('\u{11}')
    } else if hi == '1' && lo == '2' {
        Some('\u{12}')
    } else if hi == '1' && lo == '3' {
        Some('\u{13}')
    } else if hi == '1' && lo == '4' {
        Some('\u{14}')
    } else if hi == '1' && lo == '5' {
        Some('\u{15}')
    } else if hi == '1' && lo == '6' {
        Some('\u{16}')
    } else if hi == '1' && lo == '7' {
        Some('\u{17}')
    } else if hi == '1' && lo == '8' {
        Some('\u{18}')
    } else if hi == '1' && lo == '9' {
        Some('\u{19}')
    } else if hi == '1' && lo == 'a' {
        Some('\u{1a}')
    } else if hi == '1' && lo == 'b' {
        Some('\u{1b}')
    } else if hi == '1' && lo == 'c' {
        Some('\u{1c}')
    } else if hi == '1' && lo == 'd' {
        Some('\u{1d}')
    } else if hi == '1' && lo == 'e' {
        Some('\u{1e}')
    } else if hi == '1' && lo == 'f' {
        Some('\u{1f}')
    } else if hi == '0' && lo == 'A' {
        Some('\u{a}')
    } else if hi == '0' && lo == 'B' {
        Some('\u{b}')
    } else if hi == '0' && lo == 'C' {
        Some('\u{c}')
    } else if hi == '0' && lo == 'D' {
        Some('\u{d}')
    } else if hi == '0' && lo == 'E' {
        Some('\u{e}')
    } else if hi == '0' && lo == 'F' {
        Some('\u{f}')
    } else if hi == '1' && lo == 'A' {
        Some('\u{1a}')
    } else if hi == '1' && lo == 'B' {
        Some('\u{1b}')
    } else if hi == '1' && lo == 'C' {
        Some('\u{1c}')
    } else if hi == '1' && lo == 'D' {
        Some('\u{1d}')
    } else if hi == '1' && lo == 'E' {
        Some('\u{1e}')
    } else if hi == '1' && lo == 'F' {
        Some('\u{1f}')
    } else {
        None
    }
}

fn e_jstr_body(t: &Vec<char>, i: usize) -> (r: Option<(String, usize)>)
    requires
        i <= t@.len(),
    ensures
        r matches Some(sj) ==> parse_jstr_body(t@, i as int) == Some((sj.0@, sj.1 as int))
            && i < sj.1 <= t@.len(),
        r is None ==> parse_jstr_body(t@, i as int) is None,
    decreases t@.len() - i,
{
    if i >= t.len() {
        return None;
    }
    let c = t[i];
    if c == '"' {
        let s = String::new();
        proof {
            assert(s@ =~= Seq::<char>::empty());
        }
        Some((s, i + 1))
    } else if c == '\\' {
        if i + 1 >= t.len() {
            None
        } else if t[i + 1] == 'u' {
            if t.len() - i > 5 && t[i + 2] == '0' && t[i + 3] == '0' {
                match unhex_control_exec(t[i + 4], t[i + 5]) {
                    Some(uc) => match e_jstr_body(t, i + 6) {
                        Some((rest, j)) => {
                            let mut s = String::new();
                            push_char(&mut s, uc);
                            s.append(rest.as_str());
                            proof {
                                assert(s@ =~= seq![uc] + rest@);
                            }
                            Some((s, j))
                        },
                        None => None,
                    },
                    None => None,
                }
            } else {
                None
            }
        } else {
            match e_esc_code(t[i + 1]) {
                Some(ec) => match e_jstr_body(t, i + 2) {
                    Some((rest, j)) => {
                        let mut s = String::new();
                        push_char(&mut s, ec);
                        s.append(rest.as_str());
                        proof {
                            assert(s@ =~= seq![ec] + rest@);
                        }
                        Some((s, j))
                    },
                    None => None,
                },
                None => None,
            }
        }
    } else {
        match e_jstr_body(t, i + 1) {
            Some((rest, j)) => {
                let mut s = String::new();
                push_char(&mut s, c);
                s.append(rest.as_str());
                proof {
                    assert(s@ =~= seq![t@[i as int]] + rest@);
                }
                Some((s, j))
            },
            None => None,
        }
    }
}

fn e_parse_jstr(t: &Vec<char>, i: usize) -> (r: Option<(String, usize)>)
    requires
        i <= t@.len(),
    ensures
        r matches Some(sj) ==> parse_jstr(t@, i as int) == Some((sj.0@, sj.1 as int)) && i
            < sj.1 <= t@.len(),
        r is None ==> parse_jstr(t@, i as int) is None,
{
    if i < t.len() && t[i] == '"' {
        e_jstr_body(t, i + 1)
    } else {
        None
    }
}

fn e_run_end(t: &Vec<char>, i: usize) -> (r: usize)
    requires
        i <= t@.len(),
    ensures
        r == run_end(t@, i as int),
        i <= r <= t@.len(),
        forall|k: int| i <= k < r ==> is_digit(t@[k]),
    decreases t@.len() - i,
{
    if i >= t.len() {
        i
    } else {
        let c = t[i];
        let cv = c as u32;
        if 48 <= cv && cv <= 57 {
            e_run_end(t, i + 1)
        } else {
            i
        }
    }
}

proof fn lemma_val_nonneg(ds: Seq<char>)
    requires
        forall|k: int| 0 <= k < ds.len() ==> is_digit(ds[k]),
    ensures
        val_of(ds) >= 0,
    decreases ds.len(),
{
    if ds.len() > 0 {
        lemma_val_nonneg(ds.drop_last());
    }
}

proof fn lemma_val_prefix_le(ds: Seq<char>, j: int)
    requires
        0 <= j <= ds.len(),
        forall|k: int| 0 <= k < ds.len() ==> is_digit(ds[k]),
    ensures
        val_of(ds.take(j)) <= val_of(ds),
    decreases ds.len() - j,
{
    if j == ds.len() {
        assert(ds.take(j) =~= ds);
    } else {
        lemma_val_prefix_le(ds, j + 1);
        let a = ds.take(j);
        let b = ds.take(j + 1);
        assert(b.drop_last() =~= a);
        assert(b.last() == ds[j]);
        lemma_val_nonneg(a);
        assert(val_of(b) == val_of(a) * 10 + digit_val(ds[j]));
        assert(val_of(a) * 10 >= val_of(a));
        assert(digit_val(ds[j]) >= 0);
    }
}

fn e_parse_u64(t: &Vec<char>, i: usize) -> (r: Option<(u64, usize)>)
    requires
        i <= t@.len(),
    ensures
        r matches Some(vj) ==> parse_u64(t@, i as int) == Some((vj.0, vj.1 as int)) && i
            < vj.1 <= t@.len(),
        r is None ==> parse_u64(t@, i as int) is None,
{
    let e = e_run_end(t, i);
    if e == i {
        return None;
    }
    let ghost run = t@.subrange(i as int, e as int);
    proof {
        assert(forall|k: int| 0 <= k < run.len() ==> is_digit(run[k]));
    }
    let mut acc: u64 = 0;
    let mut k: usize = i;
    while k < e
        invariant
            i <= k <= e <= t@.len(),
            e == run_end(t@, i as int),
            run == t@.subrange(i as int, e as int),
            forall|m: int| 0 <= m < run.len() ==> is_digit(run[m]),
            acc as int == val_of(run.take(k - i)),
        decreases e - k,
    {
        let c = t[k];
        proof {
            assert(run[k - i] == t@[k as int]);
            assert(is_digit(c));
        }
        let d: u64 = ((c as u32) - 48) as u64;
        proof {
            assert(run.take(k - i + 1).drop_last() =~= run.take(k - i));
            assert(run.take(k - i + 1).last() == run[k - i]);
            assert(val_of(run.take(k - i + 1)) == val_of(run.take(k - i)) * 10 + digit_val(c));
        }
        let acc10 = match acc.checked_mul(10) {
            Some(v) => v,
            None => {
                proof {
                    lemma_val_nonneg(run.take(k - i));
                    lemma_val_prefix_le(run, k - i + 1);
                    assert(val_of(run) > u64::MAX as int);
                }
                return None;
            },
        };
        let acc2 = match acc10.checked_add(d) {
            Some(v) => v,
            None => {
                proof {
                    lemma_val_nonneg(run.take(k - i));
                    lemma_val_prefix_le(run, k - i + 1);
                    assert(val_of(run) > u64::MAX as int);
                }
                return None;
            },
        };
        acc = acc2;
        k = k + 1;
    }
    proof {
        assert(run.take(e - i) =~= run);
        assert(acc as int == val_of(run));
    }
    Some((acc, e))
}

fn e_parse_comma(t: &Vec<char>, i: usize) -> (r: Option<usize>)
    requires
        i <= t@.len(),
    ensures
        r matches Some(j) ==> parse_comma(t@, i as int) == Some(j as int) && i < j <= t@.len(),
        r is None ==> parse_comma(t@, i as int) is None,
{
    let j = e_ws_end(t, i);
    if j < t.len() && t[j] == ',' {
        Some(j + 1)
    } else {
        None
    }
}

fn e_parse_key(t: &Vec<char>, i: usize, key: &str) -> (r: Option<usize>)
    requires
        i <= t@.len(),
    ensures
        r matches Some(j) ==> parse_key(t@, i as int, key@) == Some(j as int) && i <= j
            <= t@.len(),
        r is None ==> parse_key(t@, i as int, key@) is None,
{
    let j = e_ws_end(t, i);
    proof {
        assert(key@.skip(0) =~= key@);
    }
    match e_parse_lit(t, j, key, 0) {
        Some(k) => {
            let m = e_ws_end(t, k);
            if m < t.len() && t[m] == ':' {
                Some(e_ws_end(t, m + 1))
            } else {
                None
            }
        },
        None => None,
    }
}

fn e_parse_str_field(t: &Vec<char>, i: usize, key: &str) -> (r: Option<(String, usize)>)
    requires
        i <= t@.len(),
    ensures
        r matches Some(sj) ==> parse_str_field(t@, i as int, key@) == Some((sj.0@, sj.1 as int))
            && i < sj.1 <= t@.len(),
        r is None ==> parse_str_field(t@, i as int, key@) is None,
{
    match e_parse_comma(t, i) {
        Some(c) => match e_parse_key(t, c, key) {
            Some(p) => e_parse_jstr(t, p),
            None => None,
        },
        None => None,
    }
}

fn e_parse_num_field(t: &Vec<char>, i: usize, key: &str) -> (r: Option<(u64, usize)>)
    requires
        i <= t@.len(),
    ensures
        r matches Some(vj) ==> parse_num_field(t@, i as int, key@) == Some((vj.0, vj.1 as int))
            && i < vj.1 <= t@.len(),
        r is None ==> parse_num_field(t@, i as int, key@) is None,
{
    match e_parse_comma(t, i) {
        Some(c) => match e_parse_key(t, c, key) {
            Some(p) => e_parse_u64(t, p),
            None => None,
        },
        None => None,
    }
}

fn e_parse_record(t: &Vec<char>, i: usize) -> (r: Option<(EncryptedRecord, usize)>)
    requires
        i <= t@.len(),
    ensures
        r matches Some(rj) ==> parse_record(t@, i as int) == Some((rj.0@, rj.1 as int)) && i
            < rj.1 <= t@.len(),
        r is None ==> parse_record(t@, i as int) is None,
{
    let j0 = e_ws_end(t, i);
    if !(j0 < t.len() && t[j0] == '{') {
        return None;
    }
    let p1 = match e_parse_key(t, j0 + 1, "\"name\"") {
        Some(p) => p,
        None => return None,
    };
    let (name, q1) = match e_parse_jstr(t, p1) {
        Some(sj) => sj,
        None => return None,
    };
    let (ext, q2) = match e_parse_str_field(t, q1, "\"original_extension\"") {
        Some(sj) => sj,
        None => return None,
    };
    let (path, q3) = match e_parse_str_field(t, q2, "\"encrypted_path\"") {
        Some(sj) => sj,
        None => return None,
    };
    let (size, q4) = match e_parse_num_field(t, q3, "\"size\"") {
        Some(vj) => vj,
        None => return None,
    };
    let (created, q5) = match e_parse_str_field(t, q4, "\"created_at\"") {
        Some(sj) => sj,
        None => return None,
    };
    let e = e_ws_end(t, q5);
    if e < t.len() && t[e] == '}' {
        let rec = EncryptedRecord {
            name: name,
            original_extension: ext,
            encrypted_path: path,
            size: size,
            created_at: created,
        };
        Some((rec, e + 1))
    } else {
        None
    }
}

fn e_parse_items(t: &Vec<char>, i: usize) -> (r: Option<(Vec<EncryptedRecord>, usize)>)
    requires
        i <= t@.len(),
    ensures
        r matches Some(vj) ==> parse_items(t@, i as int) == Some((rec_views(vj.0@), vj.1 as int))
            && i < vj.1 <= t@.len(),
        r is None ==> parse_items(t@, i as int) is None,
    decreases t@.len() - i,
{
    let (rec, j) = match e_parse_record(t, i) {
        Some(rj) => rj,
        None => return None,
    };
    let k = e_ws_end(t, j);
    if k < t.len() && t[k] == ',' {
        match e_parse_items(t, k + 1) {
            Some((mut rs, m)) => {
                let ghost tail = rs@;
                rs.insert(0, rec);
                proof {
                    assert(rs@ =~= seq![rec] + tail);
                    assert(rec_views(rs@) =~= seq![rec@] + rec_views(tail));
                }
                Some((rs, m))
            },
            None => None,
        }
    } else if k < t.len() && t[k] == ']' {
        let mut rs: Vec<EncryptedRecord> = Vec::new();
        rs.push(rec);
        proof {
            assert(rec_views(rs@) =~= seq![rec@]);
        }
        Some((rs, k + 1))
    } else {
        None
    }
}

/// Parse a whole snapshot text; `None` exactly when the spec-level parse
/// rejects it.
pub fn parse_snapshot_chars(t: &Vec<char>) -> (r: Option<Vec<EncryptedRecord>>)
    ensures
        r matches Some(v) ==> parse_snapshot(t@) == Some(rec_views(v@)),
        r is None ==> parse_snapshot(t@) is None,
{
    let i = e_ws_end(t, 0);
    if !(i < t.len() && t[i] == '[') {
        return None;
    }
    let j = e_ws_end(t, i + 1);
    if j < t.len() && t[j] == ']' {
        if e_ws_end(t, j + 1) == t.len() {
            let rs: Vec<EncryptedRecord> = Vec::new();
            proof {
                assert(rec_views(rs@) =~= Seq::<RecordV>::empty());
            }
            Some(rs)
        } else {
            None
        }
    } else {
        match e_parse_items(t, j) {
            Some((rs, m)) => {
                if e_ws_end(t, m) == t.len() {
                    Some(rs)
                } else {
                    None
                }
            },
            None => None,
        }
    }
}

/// Read a snapshot text into its characters and parse it.
pub fn parse_snapshot_text(text: &str) -> (r: Option<Vec<EncryptedRecord>>)
    ensures
        r matches Some(v) ==> parse_snapshot(text@) == Some(rec_views(v@)),
        r is None ==> parse_snapshot(text@) is None,
{
    let n = text.unicode_len();
    let mut chars: Vec<char> = Vec::new();
    let mut i: usize = 0;
    while i < n
        invariant
            n == text@.len(),
            i <= n,
            chars@ == text@.take(i as int),
        decreases n - i,
    {
        chars.push(text.get_char(i));
        proof {
            assert(text@.take(i + 1) =~= text@.take(i as int).push(text@[i as int]));
        }
        i = i + 1;
    }
    proof {
        assert(chars@ =~= text@);
    }
    parse_snapshot_chars(&chars)
}

} // verus!

verus! {

// ---------------------------------------------------------------------------
// Round trip: parsing a written snapshot yields the records written
// ---------------------------------------------------------------------------
proof fn lemma_concat_peel(t: Seq<char>, i: int, a: Seq<char>, b: Seq<char>)
    requires
        0 <= i,
        i + a.len() + b.len() <= t.len(),
        t.subrange(i, i + a.len() + b.len()) == a + b,
    ensures
        t.subrange(i, i + a.len()) == a,
        t.subrange(i + a.len(), i + a.len() + b.len()) == b,
{
    assert forall|k: int| 0 <= k < a.len() + b.len() implies t[i + k] == (a + b)[k] by {
        assert(t.subrange(i, i + a.len() + b.len())[k] == (a + b)[k]);
    }
    assert(t.subrange(i, i + a.len()) =~= a);
    assert forall|k: int| 0 <= k < b.len() implies t.subrange(
        i + a.len(),
        i + a.len() + b.len(),
    )[k] == b[k] by {
        assert(t[i + a.len() + k] == (a + b)[a.len() + k]);
    }
    assert(t.subrange(i + a.len(), i + a.len() + b.len()) =~= b);
}

proof fn lemma_ws_run(t: Seq<char>, i: int, j: int)
    requires
        0 <= i <= j <= t.len(),
        forall|k: int| i <= k < j ==> is_ws(t[k]),
        j == t.len() || !is_ws(t[j]),
    ensures
        ws_end(t, i) == j,
    decreases j - i,
{
    if i < j {
        lemma_ws_run(t, i + 1, j);
    }
}

proof fn lemma_parse_lit_at(t: Seq<char>, i: int, lit: Seq<char>)
    requires
        0 <= i,
        i + lit.len() <= t.len(),
        t.subrange(i, i + lit.len()) == lit,
    ensures
        parse_lit(t, i, lit) == Some(i + lit.len()),
    decreases lit.len(),
{
    if lit.len() > 0 {
        assert(t[i] == t.subrange(i, i + lit.len())[0]);
        assert forall|k: int| 0 <= k < lit.len() - 1 implies t.subrange(
            i + 1,
            i + lit.len(),
        )[k] == lit.drop_first()[k] by {
            assert(t.subrange(i, i + lit.len())[k + 1] == lit[k + 1]);
        }
        assert(t.subrange(i + 1, i + lit.len()) =~= lit.drop_first());
        lemma_parse_lit_at(t, i + 1, lit.drop_first());
    }
}

proof fn lemma_unhex_of_esc(c: char)
    requires
        (c as u32) < 32,
        c != '\n' && c != '\t' && c != '\r' && c != '\u{8}' && c != '\u{c}',
    ensures
        unhex_control(
            hex_digit((c as u32 / 16) as int),
            hex_digit((c as u32 % 16) as int),
        ) == Some(c),
{
}

proof fn lemma_jstr_body_at(t: Seq<char>, i: int, s: Seq<char>)
    requires
        0 <= i,
        i + esc(s).len() + 1 <= t.len(),
        t.subrange(i, i + esc(s).len() + 1) == esc(s) + seq!['"'],
    ensures
        parse_jstr_body(t, i) == Some((s, i + esc(s).len() + 1)),
    decreases s.len(),
{
    if s.len() == 0 {
        assert(esc(s) + seq!['"'] =~= seq!['"']);
        assert(t[i] == t.subrange(i, i + 1)[0]);
    } else {
        let c = s[0];
        let rest = s.drop_first();
        assert(esc(s) == esc_char(c) + esc(rest));
        assert(esc(s) + seq!['"'] =~= esc_char(c) + (esc(rest) + seq!['"']));
        lemma_concat_peel(t, i, esc_char(c), esc(rest) + seq!['"']);
        let p = i + esc_char(c).len();
        if c == '"' || c == '\\' {
            assert(t[i] == t.subrange(i, p)[0]);
            assert(t[i + 1] == t.subrange(i, p)[1]);
            assert(t[i] == '\\');
            lemma_jstr_body_at(t, i + 2, rest);
            assert(seq![c] + rest =~= s);
        } else if c == '\n' || c == '\t' || c == '\r' || c == '\u{8}' || c == '\u{c}' {
            assert(t[i] == t.subrange(i, p)[0]);
            assert(t[i + 1] == t.subrange(i, p)[1]);
            assert(t[i] == '\\');
            assert(t[i + 1] != 'u');
            assert(esc_code(t[i + 1]) == Some(c));
            lemma_jstr_body_at(t, i + 2, rest);
            assert(seq![c] + rest =~= s);
        } else if (c as u32) < 32 {
            assert(t[i] == t.subrange(i, p)[0]);
            assert(t[i + 1] == t.subrange(i, p)[1]);
            assert(t[i + 2] == t.subrange(i, p)[2]);
            assert(t[i + 3] == t.subrange(i, p)[3]);
            assert(t[i + 4] == t.subrange(i, p)[4]);
            assert(t[i + 5] == t.subrange(i, p)[5]);
            assert(t[i] == '\\' && t[i + 1] == 'u' && t[i + 2] == '0' && t[i + 3] == '0');
            lemma_unhex_of_esc(c);
            assert(unhex_control(t[i + 4], t[i + 5]) == Some(c));
            lemma_jstr_body_at(t, i + 6, rest);
            assert(seq![c] + rest =~= s);
        } else {
            assert(t[i] == t.subrange(i, p)[0]);
            assert(t[i] == c);
            lemma_jstr_body_at(t, i + 1, rest);
            assert(seq![c] + rest =~= s);
        }
    }
}

proof fn lemma_parse_jstr_at(t: Seq<char>, i: int, s: Seq<char>)
    requires
        0 <= i,
        i + jstr(s).len() <= t.len(),
        t.subrange(i, i + jstr(s).len()) == jstr(s),
    ensures
        parse_jstr(t, i) == Some((s, i + jstr(s).len())),
{
    lemma_concat_peel(t, i, seq!['"'], esc(s) + seq!['"']);
    assert(t[i] == t.subrange(i, i + 1)[0]);
    lemma_jstr_body_at(t, i + 1, s);
}

proof fn lemma_dec_digit_facts(d: int)
    requires
        0 <= d <= 9,
    ensures
        is_digit(dec_digit(d)),
        digit_val(dec_digit(d)) == d,
        !is_ws(dec_digit(d)),
{
}

proof fn lemma_dec_of_digits(n: nat)
    ensures
        dec_of(n).len() >= 1,
        forall|k: int| 0 <= k < dec_of(n).len() ==> is_digit(#[trigger] dec_of(n)[k]),
    decreases n,
{
    if n < 10 {
        lemma_dec_digit_facts(n as int);
    } else {
        lemma_dec_of_digits(n / 10);
        lemma_dec_digit_facts((n % 10) as int);
        assert forall|k: int| 0 <= k < dec_of(n).len() implies is_digit(
            #[trigger] dec_of(n)[k],
        ) by {
            if k < dec_of(n / 10).len() {
                assert(dec_of(n)[k] == dec_of(n / 10)[k]);
            } else {
                assert(dec_of(n)[k] == dec_digit((n % 10) as int));
            }
        }
    }
}

proof fn lemma_val_of_dec(n: nat)
    ensures
        val_of(dec_of(n)) == n,
    decreases n,
{
    if n < 10 {
        let ds = dec_of(n);
        assert(ds.drop_last() =~= Seq::<char>::empty());
        assert(val_of(Seq::<char>::empty()) == 0);
        assert(ds.last() == dec_digit(n as int));
        lemma_dec_digit_facts(n as int);
        assert(val_of(ds) == 0 * 10 + digit_val(dec_digit(n as int)));
    } else {
        lemma_val_of_dec(n / 10);
        lemma_dec_digit_facts((n % 10) as int);
        let ds = dec_of(n);
        assert(ds.drop_last() =~= dec_of(n / 10));
        assert(ds.last() == dec_digit((n % 10) as int));
        assert(val_of(ds) == val_of(dec_of(n / 10)) * 10 + (n % 10));
        assert(val_of(ds) == (n / 10) * 10 + (n % 10));
        vstd::arithmetic::div_mod::lemma_fundamental_div_mod(n as int, 10);
        assert((n / 10) * 10 + (n % 10) == n);
    }
}

proof fn lemma_run_at(t: Seq<char>, i: int, j: int)
    requires
        0 <= i <= j <= t.len(),
        forall|k: int| i <= k < j ==> is_digit(t[k]),
        j == t.len() || !is_digit(t[j]),
    ensures
        run_end(t, i) == j,
    decreases j - i,
{
    if i < j {
        lemma_run_at(t, i + 1, j);
    }
}

proof fn lemma_parse_u64_at(t: Seq<char>, i: int, n: u64)
    requires
        0 <= i,
        i + dec_of(n as nat).len() <= t.len(),
        t.subrange(i, i + dec_of(n as nat).len()) == dec_of(n as nat),
        i + dec_of(n as nat).len() == t.len() || !is_digit(t[i + dec_of(n as nat).len()]),
    ensures
        parse_u64(t, i) == Some((n, i + dec_of(n as nat).len())),
{
    let ds = dec_of(n as nat);
    lemma_dec_of_digits(n as nat);
    assert forall|k: int| i <= k < i + ds.len() implies is_digit(t[k]) by {
        assert(t.subrange(i, i + ds.len())[k - i] == ds[k - i]);
    }
    lemma_run_at(t, i, i + ds.len());
    lemma_val_of_dec(n as nat);
}

} // verus!

verus! {

proof fn lemma_digit_not_ws(c: char)
    requires
        is_digit(c),
    ensures
        !is_ws(c),
{
}

proof fn lemma_parse_key_generic(t: Seq<char>, i: int, key: Seq<char>, j: int, m: int, v: int)
    requires
        0 <= i <= j,
        j + key.len() <= m < v <= t.len(),
        forall|k: int| i <= k < j ==> is_ws(t[k]),
        j < t.len() && !is_ws(t[j]),
        t.subrange(j, j + key.len()) == key,
        forall|k: int| j + key.len() <= k < m ==> is_ws(t[k]),
        m < t.len() && !is_ws(t[m]) && t[m] == ':',
        forall|k: int| m + 1 <= k < v ==> is_ws(t[k]),
        v == t.len() || !is_ws(t[v]),
    ensures
        parse_key(t, i, key) == Some(v),
{
    lemma_ws_run(t, i, j);
    lemma_parse_lit_at(t, j, key);
    lemma_ws_run(t, j + key.len(), m);
    lemma_ws_run(t, m + 1, v);
}

#[verifier::rlimit(100)]
proof fn lemma_parse_record_at(t: Seq<char>, i: int, p: int, r: RecordV)
    requires
        0 <= i <= p,
        forall|k: int| i <= k < p ==> is_ws(t[k]),
        p + jrecord(r).len() <= t.len(),
        t.subrange(p, p + jrecord(r).len()) == jrecord(r),
    ensures
        parse_record(t, i) == Some((r, p + jrecord(r).len())),
{
    reveal_strlit("{\n    \"name\": ");
    reveal_strlit(",\n    \"original_extension\": ");
    reveal_strlit(",\n    \"encrypted_path\": ");
    reveal_strlit(",\n    \"size\": ");
    reveal_strlit(",\n    \"created_at\": ");
    reveal_strlit("\n  }");
    reveal_strlit("\"name\"");
    reveal_strlit("\"original_extension\"");
    reveal_strlit("\"encrypted_path\"");
    reveal_strlit("\"size\"");
    reveal_strlit("\"created_at\"");
    let l1 = "{\n    \"name\": "@;
    let l2 = ",\n    \"original_extension\": "@;
    let l3 = ",\n    \"encrypted_path\": "@;
    let l4 = ",\n    \"size\": "@;
    let l5 = ",\n    \"created_at\": "@;
    let l6 = "\n  }"@;
    let k1 = "\"name\""@;
    let k2 = "\"original_extension\""@;
    let k3 = "\"encrypted_path\""@;
    let k4 = "\"size\""@;
    let k5 = "\"created_at\""@;
    let sn = jstr(r.name);
    let se = jstr(r.original_extension);
    let sp = jstr(r.encrypted_path);
    let sz = dec_of(r.size as nat);
    let sc = jstr(r.created_at);
    let r9 = sc + l6;
    let r8 = l5 + r9;
    let r7 = sz + r8;
    let r6 = l4 + r7;
    let r5 = sp + r6;
    let r4 = l3 + r5;
    let r3 = se + r4;
    let r2 = l2 + r3;
    let r1 = sn + r2;
    assert(jrecord(r) == l1 + r1);
    lemma_concat_peel(t, p, l1, r1);
    let a1 = p + l1.len();
    lemma_concat_peel(t, a1, sn, r2);
    let b1 = a1 + sn.len();
    lemma_concat_peel(t, b1, l2, r3);
    let a2 = b1 + l2.len();
    lemma_concat_peel(t, a2, se, r4);
    let b2 = a2 + se.len();
    lemma_concat_peel(t, b2, l3, r5);
    let a3 = b2 + l3.len();
    lemma_concat_peel(t, a3, sp, r6);
    let b3 = a3 + sp.len();
    lemma_concat_peel(t, b3, l4, r7);
    let a4 = b3 + l4.len();
    lemma_concat_peel(t, a4, sz, r8);
    let b4 = a4 + sz.len();
    lemma_concat_peel(t, b4, l5, r9);
    let a5 = b4 + l5.len();
    lemma_concat_peel(t, a5, sc, l6);
    let b5 = a5 + sc.len();
    // field 1: "name" inside the opening scaffolding
    assert(t[p] == t.subrange(p, a1)[0]);
    assert(t[p] == '{');
    lemma_ws_run(t, i, p);
    assert forall|k: int| p + 1 <= k < p + 6 implies is_ws(t[k]) by {
        assert(t[k] == t.subrange(p, a1)[k - p]);
    }
    assert forall|m: int| 0 <= m < k1.len() implies t.subrange(p + 6, p + 12)[m] == k1[m] by {
        assert(t[p + 6 + m] == t.subrange(p, a1)[6 + m]);
    }
    assert(t.subrange(p + 6, p + 12) =~= k1);
    assert(t[p + 6] == t.subrange(p, a1)[6]);
    assert(t[p + 12] == t.subrange(p, a1)[12]);
    assert(t[p + 13] == t.subrange(p, a1)[13]);
    assert(t[a1] == t.subrange(a1, b1)[0]);
    assert(t[a1] == '"');
    assert forall|k: int| p + 13 <= k < a1 implies is_ws(t[k]) by {
        assert(t[k] == t.subrange(p, a1)[k - p]);
    }
    lemma_parse_key_generic(t, p + 1, k1, p + 6, p + 12, a1);
    lemma_parse_jstr_at(t, a1, r.name);
    // field 2: "original_extension"
    assert(t[b1] == t.subrange(b1, a2)[0]);
    assert(t[b1] == ',');
    lemma_ws_run(t, b1, b1);
    assert forall|k: int| b1 + 1 <= k < b1 + 6 implies is_ws(t[k]) by {
        assert(t[k] == t.subrange(b1, a2)[k - b1]);
    }
    assert forall|m: int| 0 <= m < k2.len() implies t.subrange(b1 + 6, b1 + 6 + k2.len())[m]
        == k2[m] by {
        assert(t[b1 + 6 + m] == t.subrange(b1, a2)[6 + m]);
    }
    assert(t.subrange(b1 + 6, b1 + 6 + k2.len()) =~= k2);
    assert(t[b1 + 6] == t.subrange(b1, a2)[6]);
    assert(t[b1 + 6 + k2.len()] == t.subrange(b1, a2)[6 + k2.len() as int]);
    assert(t[b1 + 7 + k2.len()] == t.subrange(b1, a2)[7 + k2.len() as int]);
    assert(t[a2] == t.subrange(a2, b2)[0]);
    assert(t[a2] == '"');
    assert forall|k: int| b1 + 7 + k2.len() <= k < a2 implies is_ws(t[k]) by {
        assert(t[k] == t.subrange(b1, a2)[k - b1]);
    }
    lemma_parse_key_generic(t, b1 + 1, k2, b1 + 6, b1 + 6 + k2.len() as int, a2);
    lemma_parse_jstr_at(t, a2, r.original_extension);
    // field 3: "encrypted_path"
    assert(t[b2] == t.subrange(b2, a3)[0]);
    assert(t[b2] == ',');
    lemma_ws_run(t, b2, b2);
    assert forall|k: int| b2 + 1 <= k < b2 + 6 implies is_ws(t[k]) by {
        assert(t[k] == t.subrange(b2, a3)[k - b2]);
    }
    assert forall|m: int| 0 <= m < k3.len() implies t.subrange(b2 + 6, b2 + 6 + k3.len())[m]
        == k3[m] by {
        assert(t[b2 + 6 + m] == t.subrange(b2, a3)[6 + m]);
    }
    assert(t.subrange(b2 + 6, b2 + 6 + k3.len()) =~= k3);
    assert(t[b2 + 6] == t.subrange(b2, a3)[6]);
    assert(t[b2 + 6 + k3.len()] == t.subrange(b2, a3)[6 + k3.len() as int]);
    assert(t[b2 + 7 + k3.len()] == t.subrange(b2, a3)[7 + k3.len() as int]);
    assert(t[a3] == t.subrange(a3, b3)[0]);
    assert(t[a3] == '"');
    assert forall|k: int| b2 + 7 + k3.len() <= k < a3 implies is_ws(t[k]) by {
        assert(t[k] == t.subrange(b2, a3)[k - b2]);
    }
    lemma_parse_key_generic(t, b2 + 1, k3, b2 + 6, b2 + 6 + k3.len() as int, a3);
    lemma_parse_jstr_at(t, a3, r.encrypted_path);
    // field 4: "size"
    assert(t[b3] == t.subrange(b3, a4)[0]);
    assert(t[b3] == ',');
    lemma_ws_run(t, b3, b3);
    assert forall|k: int| b3 + 1 <= k < b3 + 6 implies is_ws(t[k]) by {
        assert(t[k] == t.subrange(b3, a4)[k - b3]);
    }
    assert forall|m: int| 0 <= m < k4.len() implies t.subrange(b3 + 6, b3 + 6 + k4.len())[m]
        == k4[m] by {
        assert(t[b3 + 6 + m] == t.subrange(b3, a4)[6 + m]);
    }
    assert(t.subrange(b3 + 6, b3 + 6 + k4.len()) =~= k4);
    assert(t[b3 + 6] == t.subrange(b3, a4)[6]);
    assert(t[b3 + 6 + k4.len()] == t.subrange(b3, a4)[6 + k4.len() as int]);
    assert(t[b3 + 7 + k4.len()] == t.subrange(b3, a4)[7 + k4.len() as int]);
    lemma_dec_of_digits(r.size as nat);
    assert(t[a4] == t.subrange(a4, b4)[0]);
    assert(is_digit(t[a4]));
    lemma_digit_not_ws(t[a4]);
    assert forall|k: int| b3 + 7 + k4.len() <= k < a4 implies is_ws(t[k]) by {
        assert(t[k] == t.subrange(b3, a4)[k - b3]);
    }
    lemma_parse_key_generic(t, b3 + 1, k4, b3 + 6, b3 + 6 + k4.len() as int, a4);
    assert(t[b4] == t.subrange(b4, a5)[0]);
    assert(t[b4] == ',');
    assert(!is_digit(','));
    lemma_parse_u64_at(t, a4, r.size);
    // field 5: "created_at"
    lemma_ws_run(t, b4, b4);
    assert forall|k: int| b4 + 1 <= k < b4 + 6 implies is_ws(t[k]) by {
        assert(t[k] == t.subrange(b4, a5)[k - b4]);
    }
    assert forall|m: int| 0 <= m < k5.len() implies t.subrange(b4 + 6, b4 + 6 + k5.len())[m]
        == k5[m] by {
        assert(t[b4 + 6 + m] == t.subrange(b4, a5)[6 + m]);
    }
    assert(t.subrange(b4 + 6, b4 + 6 + k5.len()) =~= k5);
    assert(t[b4 + 6] == t.subrange(b4, a5)[6]);
    assert(t[b4 + 6 + k5.len()] == t.subrange(b4, a5)[6 + k5.len() as int]);
    assert(t[b4 + 7 + k5.len()] == t.subrange(b4, a5)[7 + k5.len() as int]);
    assert(t[a5] == t.subrange(a5, b5)[0]);
    assert(t[a5] == '"');
    assert forall|k: int| b4 + 7 + k5.len() <= k < a5 implies is_ws(t[k]) by {
        assert(t[k] == t.subrange(b4, a5)[k - b4]);
    }
    lemma_parse_key_generic(t, b4 + 1, k5, b4 + 6, b4 + 6 + k5.len() as int, a5);
    lemma_parse_jstr_at(t, a5, r.created_at);
    // closing scaffolding
    assert(t[b5] == t.subrange(b5, b5 + 4)[0]);
    assert(t[b5 + 1] == t.subrange(b5, b5 + 4)[1]);
    assert(t[b5 + 2] == t.subrange(b5, b5 + 4)[2]);
    assert(t[b5 + 3] == t.subrange(b5, b5 + 4)[3]);
    assert(t[b5] == '\n' && t[b5 + 1] == ' ' && t[b5 + 2] == ' ' && t[b5 + 3] == '}');
    lemma_ws_run(t, b5, b5 + 3);
    assert(parse_record(t, i) == Some(
        (
            RecordV {
                name: r.name,
                original_extension: r.original_extension,
                encrypted_path: r.encrypted_path,
                size: r.size,
                created_at: r.created_at,
            },
            b5 + 4,
        ),
    ));
}

proof fn lemma_parse_items_at(t: Seq<char>, i: int, p: int, rs: Seq<RecordV>)
    requires
        0 <= i <= p,
        rs.len() >= 1,
        forall|k: int| i <= k < p ==> is_ws(t[k]),
        p + jitems(rs).len() <= t.len(),
        t.subrange(p, p + jitems(rs).len()) == jitems(rs),
    ensures
        parse_items(t, i) == Some((rs, p + jitems(rs).len())),
    decreases rs.len(),
{
    reveal_strlit("{\n    \"name\": ");
    reveal_strlit("\n]");
    reveal_strlit(",\n  ");
    let jr = jrecord(rs[0]);
    assert(jr.len() >= 14) by {
        assert(jr == "{\n    \"name\": "@ + (jstr(rs[0].name) + (",\n    \"original_extension\": "@
            + (jstr(rs[0].original_extension) + (",\n    \"encrypted_path\": "@ + (jstr(
            rs[0].encrypted_path,
        ) + (",\n    \"size\": "@ + (dec_of(rs[0].size as nat) + (",\n    \"created_at\": "@
            + (jstr(rs[0].created_at) + "\n  }"@))))))))));
    }
    if rs.len() == 1 {
        let rest = "\n]"@;
        assert(jitems(rs) == jr + rest);
        lemma_concat_peel(t, p, jr, rest);
        let q = p + jr.len();
        lemma_parse_record_at(t, i, p, rs[0]);
        assert(t[q] == t.subrange(q, q + 2)[0]);
        assert(t[q + 1] == t.subrange(q, q + 2)[1]);
        assert(t[q] == '\n' && t[q + 1] == ']');
        lemma_ws_run(t, q, q + 1);
        assert(seq![rs[0]] =~= rs);
    } else {
        let rest = ",\n  "@ + jitems(rs.drop_first());
        assert(jitems(rs) == jr + rest);
        lemma_concat_peel(t, p, jr, rest);
        let q = p + jr.len();
        lemma_parse_record_at(t, i, p, rs[0]);
        lemma_concat_peel(t, q, ",\n  "@, jitems(rs.drop_first()));
        assert(t[q] == t.subrange(q, q + 4)[0]);
        assert(t[q + 1] == t.subrange(q, q + 4)[1]);
        assert(t[q + 2] == t.subrange(q, q + 4)[2]);
        assert(t[q + 3] == t.subrange(q, q + 4)[3]);
        assert(t[q] == ',' && t[q + 1] == '\n' && t[q + 2] == ' ' && t[q + 3] == ' ');
        lemma_ws_run(t, q, q);
        lemma_parse_items_at(t, q + 1, q + 4, rs.drop_first());
        assert(seq![rs[0]] + rs.drop_first() =~= rs);
    }
}

/// Law: loading a saved snapshot gives back exactly the records that were
/// saved, field for field, for every record sequence. `write_snapshot`
/// produces `jrecords(..)` of the records' views and `parse_snapshot_text`
/// returns exactly what `parse_snapshot` says, so a save/load round trip
/// through the snapshot file reproduces the index.
#[verifier::rlimit(60)]
pub proof fn lemma_save_load_round_trip(rs: Seq<RecordV>)
    ensures
        parse_snapshot(jrecords(rs)) == Some(rs),
{
    reveal_strlit("[]");
    reveal_strlit("[\n  ");
    reveal_strlit("{\n    \"name\": ");
    let t = jrecords(rs);
    if rs.len() == 0 {
        assert(t.len() == 2);
        assert(t[0] == '[' && t[1] == ']');
        lemma_ws_run(t, 0, 0);
        lemma_ws_run(t, 1, 1);
        lemma_ws_run(t, 2, 2);
    } else {
        assert(t.subrange(0, t.len() as int) =~= t);
        lemma_concat_peel(t, 0, "[\n  "@, jitems(rs));
        assert(t[0] == t.subrange(0, 4)[0]);
        assert(t[1] == t.subrange(0, 4)[1]);
        assert(t[2] == t.subrange(0, 4)[2]);
        assert(t[3] == t.subrange(0, 4)[3]);
        assert(t[0] == '[' && t[1] == '\n' && t[2] == ' ' && t[3] == ' ');
        let ji = jitems(rs);
        assert(t[4] == t.subrange(4, 4 + ji.len() as int)[0]);
        assert(ji[0] == jrecord(rs[0])[0]) by {
            if rs.len() == 1 {
                assert(ji == jrecord(rs[0]) + "\n]"@);
            } else {
                assert(ji == jrecord(rs[0]) + (",\n  "@ + jitems(rs.drop_first())));
            }
        }
        assert(jrecord(rs[0])[0] == '{') by {
            assert(jrecord(rs[0]) == "{\n    \"name\": "@ + (jstr(rs[0].name) + (
            ",\n    \"original_extension\": "@ + (jstr(rs[0].original_extension) + (
            ",\n    \"encrypted_path\": "@ + (jstr(rs[0].encrypted_path) + (",\n    \"size\": "@
                + (dec_of(rs[0].size as nat) + (",\n    \"created_at\": "@ + (jstr(
                rs[0].created_at,
            ) + "\n  }"@))))))))));
        }
        assert(t[4] == '{');
        lemma_ws_run(t, 0, 0);
        lemma_ws_run(t, 1, 4);
        lemma_parse_items_at(t, 4, 4, rs);
        lemma_ws_run(t, t.len() as int, t.len() as int);
    }
}

} // verus!

use vstd::prelude::*;
use vstd::string::StringExecFns;

use crate::data::{ConfigItem, ConfigItemType, ConfigItemView, items_view};
use crate::text::{chars_to_string, is_match_at, lit_at, str_to_chars};

verus! {

// ---------------------------------------------------------------------------
// The serialized form: a compact JSON array of objects with the fields id,
// on, title and item_type, in that fixed order. Inside strings the quote and
// the backslash are escaped with a backslash; every other character stands
// for itself.
// ---------------------------------------------------------------------------
/// How one character appears inside a serialized string.
pub open spec fn esc_char(c: char) -> Seq<char> {
    if c == '"' || c == '\\' {
        seq!['\\', c]
    } else {
        seq![c]
    }
}

/// How a string's characters appear inside its quotes.
pub open spec fn spec_escape(s: Seq<char>) -> Seq<char>
    decreases s.len(),
{
    if s.len() == 0 {
        Seq::empty()
    } else {
        esc_char(s[0]) + spec_escape(s.skip(1))
    }
}

/// A serialized string: the escaped characters between two quotes.
pub open spec fn spec_json_string(s: Seq<char>) -> Seq<char> {
    seq!['"'] + spec_escape(s) + seq!['"']
}

/// A serialized boolean.
pub open spec fn spec_json_bool(b: bool) -> Seq<char> {
    if b {
        "true"@
    } else {
        "false"@
    }
}

/// The integer code a profile kind serializes to.
pub open spec fn spec_type_code(t: ConfigItemType) -> Seq<char> {
    match t {
        ConfigItemType::User => "1"@,
        ConfigItemType::System => "0"@,
    }
}

/// One serialized profile entry, fields in fixed order.
pub open spec fn spec_json_item(it: ConfigItemView) -> Seq<char> {
    "{\"id\":"@ + spec_json_string(it.id) + ",\"on\":"@ + spec_json_bool(it.on) + ",\"title\":"@
        + spec_json_string(it.title) + ",\"item_type\":"@ + spec_type_code(it.item_type) + "}"@
}

/// The serialized entries, joined by commas.
pub open spec fn spec_json_items(items: Seq<ConfigItemView>) -> Seq<char>
    decreases items.len(),
{
    if items.len() == 0 {
        Seq::empty()
    } else if items.len() == 1 {
        spec_json_item(items[0])
    } else {
        spec_json_item(items[0]) + seq![','] + spec_json_items(items.skip(1))
    }
}

/// A whole serialized profile list: the joined entries between brackets.
pub open spec fn spec_json_config(items: Seq<ConfigItemView>) -> Seq<char> {
    seq!['['] + spec_json_items(items) + seq![']']
}

/// Escaping distributes over concatenation.
pub proof fn lemma_escape_app(a: Seq<char>, b: Seq<char>)
    ensures
        spec_escape(a + b) == spec_escape(a) + spec_escape(b),
    decreases a.len(),
{
    if a.len() == 0 {
        assert(a + b =~= b);
        assert(spec_escape(a) + spec_escape(b) =~= spec_escape(b));
    } else {
        lemma_escape_app(a.skip(1), b);
        assert((a + b).skip(1) =~= a.skip(1) + b);
        assert(esc_char((a + b)[0]) + (spec_escape(a.skip(1)) + spec_escape(b)) =~= (esc_char(a[0])
            + spec_escape(a.skip(1))) + spec_escape(b));
    }
}

/// Append the escaped characters of `s` to `out`.
fn escape_into(out: &mut String, s: &str)
    ensures
        final(out)@ == old(out)@ + spec_escape(s@),
{
    let cs = str_to_chars(s);
    let mut i: usize = 0;
    while i < cs.len()
        invariant
            0 <= i <= cs@.len(),
            cs@ == s@,
            out@ == old(out)@ + spec_escape(s@.subrange(0, i as int)),
        decreases cs@.len() - i,
    {
        let c = cs[i];
        if c == '"' || c == '\\' {
            out.push('\\');
            out.push(c);
        } else {
            out.push(c);
        }
        proof {
            let pre = s@.subrange(0, i as int);
            let post = s@.subrange(0, i as int + 1);
            assert(post =~= pre + seq![s@[i as int]]);
            lemma_escape_app(pre, seq![s@[i as int]]);
            assert(seq![s@[i as int]].skip(1) =~= Seq::<char>::empty());
            assert(spec_escape(seq![s@[i as int]]) =~= esc_char(s@[i as int]) + spec_escape(
                Seq::<char>::empty(),
            ));
            assert(esc_char(s@[i as int]) + spec_escape(Seq::<char>::empty()) =~= esc_char(
                s@[i as int],
            ));
            assert(out@ =~= old(out)@ + spec_escape(post));
        }
        i = i + 1;
    }
    proof {
        assert(s@.subrange(0, s@.len() as int) =~= s@);
    }
}

/// Append a serialized string to `out`.
fn json_string_into(out: &mut String, s: &str)
    ensures
        final(out)@ == old(out)@ + spec_json_string(s@),
{
    out.push('"');
    escape_into(out, s);
    out.push('"');
    proof {
        assert(out@ =~= old(out)@ + spec_json_string(s@));
    }
}

/// Append one serialized profile entry to `out`.
fn json_item_into(out: &mut String, item: &ConfigItem)
    ensures
        final(out)@ == old(out)@ + spec_json_item(item@),
{
    out.append("{\"id\":");
    json_string_into(out, item.id().as_str());
    out.append(",\"on\":");
    if item.is_on() {
        out.append("true");
    } else {
        out.append("false");
    }
    out.append(",\"title\":");
    json_string_into(out, item.title().as_str());
    out.append(",\"item_type\":");
    match item.item_type() {
        ConfigItemType::User => out.append("1"),
        ConfigItemType::System => out.append("0"),
    }
    out.append("}");
    proof {
        assert(out@ =~= old(out)@ + spec_json_item(item@));
    }
}

/// Joining one more entry at the end of the array body.
pub proof fn lemma_json_items_snoc(items: Seq<ConfigItemView>, x: ConfigItemView)
    ensures
        spec_json_items(items.push(x)) == if items.len() == 0 {
            spec_json_item(x)
        } else {
            spec_json_items(items) + seq![','] + spec_json_item(x)
        },
    decreases items.len(),
{
    if items.len() == 0 {
        assert(items.push(x).len() == 1);
        assert(items.push(x)[0] == x);
    } else {
        lemma_json_items_snoc(items.skip(1), x);
        assert(items.push(x).skip(1) =~= items.skip(1).push(x));
        assert(items.push(x)[0] == items[0]);
        if items.len() == 1 {
            assert(spec_json_items(items.push(x)) =~= spec_json_items(items) + seq![',']
                + spec_json_item(x));
        } else {
            assert(spec_json_item(items[0]) + seq![','] + (spec_json_items(items.skip(1)) + seq![
                ',',
            ] + spec_json_item(x)) =~= (spec_json_item(items[0]) + seq![','] + spec_json_items(
                items.skip(1),
            )) + seq![','] + spec_json_item(x));
        }
    }
}

/// Serialize the whole profile list, per `spec_json_config`: the durable form
/// that `parse_config` reads back.
pub fn serialize_config_items(items: &Vec<ConfigItem>) -> (r: String)
    ensures
        r@ == spec_json_config(items_view(items@)),
{
    let mut out = String::new();
    out.push('[');
    let mut i: usize = 0;
    while i < items.len()
        invariant
            0 <= i <= items@.len(),
            out@ == seq!['['] + spec_json_items(items_view(items@).subrange(0, i as int)),
        decreases items@.len() - i,
    {
        if i > 0 {
            out.push(',');
        }
        json_item_into(&mut out, &items[i]);
        proof {
            let views = items_view(items@);
            let pre = views.subrange(0, i as int);
            let post = views.subrange(0, i as int + 1);
            assert(views[i as int] == items@[i as int]@);
            assert(post =~= pre.push(views[i as int]));
            lemma_json_items_snoc(pre, views[i as int]);
            assert(out@ =~= seq!['['] + spec_json_items(post));
        }
        i = i + 1;
    }
    out.push(']');
    proof {
        assert(items_view(items@).subrange(0, items@.len() as int) =~= items_view(items@));
        assert(out@ =~= spec_json_config(items_view(items@)));
    }
    out
}

// ---------------------------------------------------------------------------
// Reading the serialized form back. The reader is lenient: it accepts a JSON
// array of objects with scalar fields, with whitespace between tokens and the
// fields in any order. Per entry, `id`
// and `title` must be strings; a missing or non-boolean `on` reads as false; a
// missing or non-numeric `item_type` reads as the user kind; a duplicated key
// reads as its last occurrence; unknown keys with scalar values are ignored.
// Any text outside that shape — a truncated array, a nested value, an integer
// beyond eighteen digits — parses as the empty list, the documented
// lenient-read policy, never as an error.
// ---------------------------------------------------------------------------
/// A decimal digit.
pub open spec fn is_digit(c: char) -> bool {
    48 <= c as u32 <= 57
}

/// Parse the characters of a string after its opening quote, up to and past
/// the closing quote, undoing the escapes; the position returned is the one
/// right after the closing quote.
pub open spec fn sp_string_chars(s: Seq<char>, i: int) -> Option<(Seq<char>, int)>
    decreases s.len() - i + 1,
{
    if i < 0 || i >= s.len() {
        None
    } else if s[i] == '"' {
        Some((Seq::empty(), i + 1))
    } else if s[i] == '\\' {
        if i + 1 < s.len() && (s[i + 1] == '"' || s[i + 1] == '\\') {
            match sp_string_chars(s, i + 2) {
                Some(p) => Some((seq![s[i + 1]] + p.0, p.1)),
                None => None,
            }
        } else {
            None
        }
    } else {
        match sp_string_chars(s, i + 1) {
            Some(p) => Some((seq![s[i]] + p.0, p.1)),
            None => None,
        }
    }
}

/// Parse a quoted string at position `i`.
pub open spec fn sp_string(s: Seq<char>, i: int) -> Option<(Seq<char>, int)> {
    if 0 <= i < s.len() && s[i] == '"' {
        sp_string_chars(s, i + 1)
    } else {
        None
    }
}

/// The whitespace accepted between tokens.
pub open spec fn is_json_ws(c: char) -> bool {
    c == ' ' || c == '\t' || c == '\n' || c == '\r'
}

/// The first position at or after `i` holding no whitespace.
pub open spec fn ws_end(s: Seq<char>, i: int) -> int
    decreases s.len() - i,
{
    if 0 <= i < s.len() && is_json_ws(s[i]) {
        ws_end(s, i + 1)
    } else {
        i
    }
}

/// A scalar field value: all that a metadata entry ever holds.
pub ghost enum JsonVal {
    Str(Seq<char>),
    Int(int),
    Bool(bool),
    Null,
}

/// The position right after the run of digits starting at `i`.
pub open spec fn digit_run_end(s: Seq<char>, i: int) -> int
    decreases s.len() - i,
{
    if 0 <= i < s.len() && is_digit(s[i]) {
        digit_run_end(s, i + 1)
    } else {
        i
    }
}

/// The decimal value of the digits of `s` from `i` up to `j`.
pub open spec fn digits_value(s: Seq<char>, i: int, j: int) -> int
    decreases j - i,
{
    if j <= i {
        0
    } else {
        digits_value(s, i, j - 1) * 10 + (s[j - 1] as u32 - 48)
    }
}

/// Parse an integer at position `i`: an optional minus and a run of at most
/// eighteen digits, so the value always fits the machine.
pub open spec fn sp_int(s: Seq<char>, i: int) -> Option<(int, int)> {
    let neg = 0 <= i < s.len() && s[i] == '-';
    let d0 = if neg {
        i + 1
    } else {
        i
    };
    if 0 <= d0 < s.len() && is_digit(s[d0]) {
        let e = digit_run_end(s, d0);
        if e - d0 <= 18 {
            Some(
                (
                    if neg {
                        -digits_value(s, d0, e)
                    } else {
                        digits_value(s, d0, e)
                    },
                    e,
                ),
            )
        } else {
            None
        }
    } else {
        None
    }
}

/// Parse one scalar value at position `i`: a string, a boolean, null, or an
/// integer.
pub open spec fn sp_value(s: Seq<char>, i: int) -> Option<(JsonVal, int)> {
    if 0 <= i < s.len() && s[i] == '"' {
        match sp_string_chars(s, i + 1) {
            Some(p) => Some((JsonVal::Str(p.0), p.1)),
            None => None,
        }
    } else if is_match_at(s, "true"@, i) {
        Some((JsonVal::Bool(true), i + "true"@.len()))
    } else if is_match_at(s, "false"@, i) {
        Some((JsonVal::Bool(false), i + "false"@.len()))
    } else if is_match_at(s, "null"@, i) {
        Some((JsonVal::Null, i + "null"@.len()))
    } else {
        match sp_int(s, i) {
            Some(p) => Some((JsonVal::Int(p.0), p.1)),
            None => None,
        }
    }
}

/// Parse one `"key": value` pair at position `i`.
pub open spec fn sp_pair(s: Seq<char>, i: int) -> Option<((Seq<char>, JsonVal), int)> {
    match sp_string(s, i) {
        None => None,
        Some(k) => {
            let c = ws_end(s, k.1);
            if 0 <= c < s.len() && s[c] == ':' {
                match sp_value(s, ws_end(s, c + 1)) {
                    Some(v) => Some(((k.0, v.0), v.1)),
                    None => None,
                }
            } else {
                None
            }
        },
    }
}

/// Parse the pairs of a non-empty object at position `i`, up to and past the
/// closing brace.
pub open spec fn sp_pairs(s: Seq<char>, i: int) -> Option<(Seq<(Seq<char>, JsonVal)>, int)>
    decreases s.len() - i,
{
    match sp_pair(s, i) {
        None => None,
        Some(p) => if p.1 <= i {
            None
        } else {
            let k = ws_end(s, p.1);
            if 0 <= k < s.len() && s[k] == ',' {
                let n0 = ws_end(s, k + 1);
                if n0 <= i || n0 > s.len() {
                    None
                } else {
                    match sp_pairs(s, n0) {
                        Some(q) => Some((seq![p.0] + q.0, q.1)),
                        None => None,
                    }
                }
            } else if 0 <= k < s.len() && s[k] == '}' {
                Some((seq![p.0], k + 1))
            } else {
                None
            }
        },
    }
}

/// Parse one object at position `i` as its key-value pairs.
pub open spec fn sp_obj(s: Seq<char>, i: int) -> Option<(Seq<(Seq<char>, JsonVal)>, int)> {
    if 0 <= i < s.len() && s[i] == '{' {
        let b = ws_end(s, i + 1);
        if 0 <= b < s.len() && s[b] == '}' {
            Some((Seq::empty(), b + 1))
        } else {
            sp_pairs(s, b)
        }
    } else {
        None
    }
}

/// The value of the last pair carrying `key`, as a JSON map reads duplicates.
pub open spec fn lookup(pairs: Seq<(Seq<char>, JsonVal)>, key: Seq<char>) -> Option<JsonVal>
    decreases pairs.len(),
{
    if pairs.len() == 0 {
        None
    } else if pairs.last().0 == key {
        Some(pairs.last().1)
    } else {
        lookup(pairs.drop_last(), key)
    }
}

/// The enabled flag of an entry: a boolean `on` field; anything else, a
/// missing field included, reads as false.
pub open spec fn decode_on(v: Option<JsonVal>) -> bool {
    match v {
        Some(JsonVal::Bool(b)) => b,
        _ => false,
    }
}

/// The kind of an entry: a numeric `item_type` of at least 1 reads as a user
/// profile and any other number as the system kind; anything else, a missing
/// field included, reads as a user profile.
pub open spec fn decode_type(v: Option<JsonVal>) -> ConfigItemType {
    match v {
        Some(JsonVal::Int(n)) => if n >= 1 {
            ConfigItemType::User
        } else {
            ConfigItemType::System
        },
        _ => ConfigItemType::User,
    }
}

/// One profile entry from an object's pairs: `id` and `title` must be
/// strings, the other fields are defaulted per `decode_on` and `decode_type`.
pub open spec fn decode_item(pairs: Seq<(Seq<char>, JsonVal)>) -> Option<ConfigItemView> {
    match (lookup(pairs, "id"@), lookup(pairs, "title"@)) {
        (Some(JsonVal::Str(id)), Some(JsonVal::Str(title))) => Some(
            ConfigItemView {
                id,
                on: decode_on(lookup(pairs, "on"@)),
                title,
                item_type: decode_type(lookup(pairs, "item_type"@)),
            },
        ),
        _ => None,
    }
}

/// Parse one profile entry at position `i`.
pub open spec fn sp_item(s: Seq<char>, i: int) -> Option<(ConfigItemView, int)> {
    match sp_obj(s, i) {
        None => None,
        Some(o) => match decode_item(o.0) {
            Some(it) => Some((it, o.1)),
            None => None,
        },
    }
}

/// Parse the entries of a non-empty array at position `i`, up to and past the
/// closing bracket.
pub open spec fn sp_items(s: Seq<char>, i: int) -> Option<(Seq<ConfigItemView>, int)>
    decreases s.len() - i,
{
    match sp_item(s, i) {
        None => None,
        Some(p) => if p.1 <= i {
            None
        } else {
            let k = ws_end(s, p.1);
            if 0 <= k < s.len() && s[k] == ',' {
                let n0 = ws_end(s, k + 1);
                if n0 <= i || n0 > s.len() {
                    None
                } else {
                    match sp_items(s, n0) {
                        Some(q) => Some((seq![p.0] + q.0, q.1)),
                        None => None,
                    }
                }
            } else if 0 <= k < s.len() && s[k] == ']' {
                Some((seq![p.0], k + 1))
            } else {
                None
            }
        },
    }
}

/// Parse a whole metadata text: the bracketed entries with nothing but
/// whitespace around them.
pub open spec fn sp_config(s: Seq<char>) -> Option<Seq<ConfigItemView>> {
    let a = ws_end(s, 0);
    if 0 <= a < s.len() && s[a] == '[' {
        let b = ws_end(s, a + 1);
        if 0 <= b < s.len() && s[b] == ']' {
            if ws_end(s, b + 1) == s.len() {
                Some(Seq::empty())
            } else {
                None
            }
        } else {
            match sp_items(s, b) {
                Some(p) => if ws_end(s, p.1) == s.len() {
                    Some(p.0)
                } else {
                    None
                },
                None => None,
            }
        }
    } else {
        None
    }
}

/// What reading a metadata text yields: the parsed list, or — the lenient-read
/// policy — the empty list for any text the reader refuses.
pub open spec fn spec_parse_config(s: Seq<char>) -> Seq<ConfigItemView> {
    match sp_config(s) {
        Some(items) => items,
        None => Seq::empty(),
    }
}

// ---------------------------------------------------------------------------
// Round trip: the strict reader, run on what the writer emits, returns
// exactly the written list.
// ---------------------------------------------------------------------------
/// A match of a concatenation splits into matches of its parts.
proof fn lemma_match_split(s: Seq<char>, a: Seq<char>, b: Seq<char>, i: int)
    requires
        is_match_at(s, a + b, i),
    ensures
        is_match_at(s, a, i),
        is_match_at(s, b, i + a.len()),
{
    let ab = a + b;
    assert forall|k: int| 0 <= k < a.len() implies s[i + k] == a[k] by {
        assert(s.subrange(i, i + ab.len())[k] == ab[k]);
    }
    assert(s.subrange(i, i + a.len()) =~= a);
    assert forall|k: int| 0 <= k < b.len() implies s[i + a.len() + k] == b[k] by {
        assert(s.subrange(i, i + ab.len())[a.len() + k] == ab[a.len() + k]);
    }
    assert(s.subrange(i + a.len(), i + a.len() + b.len()) =~= b);
}

/// A one-character match pins the character.
proof fn lemma_match_char(s: Seq<char>, c: char, i: int)
    requires
        is_match_at(s, seq![c], i),
    ensures
        0 <= i < s.len() && s[i] == c,
{
    assert(s.subrange(i, i + 1)[0] == s[i]);
}

/// Reading escaped characters back after the opening quote recovers the
/// original string and stops right after the closing quote.
proof fn lemma_sp_string_chars_emit(orig: Seq<char>, s: Seq<char>, i: int)
    requires
        is_match_at(s, spec_escape(orig) + seq!['"'], i),
    ensures
        sp_string_chars(s, i) == Some((orig, i + spec_escape(orig).len() + 1)),
    decreases orig.len(),
{
    let esc = spec_escape(orig);
    if orig.len() == 0 {
        assert(esc + seq!['"'] =~= seq!['"']);
        lemma_match_char(s, '"', i);
    } else {
        let c = orig[0];
        let rest = orig.skip(1);
        assert(esc == esc_char(c) + spec_escape(rest));
        if c == '"' || c == '\\' {
            assert(esc + seq!['"'] =~= seq!['\\'] + (seq![c] + (spec_escape(rest) + seq!['"'])));
            lemma_match_split(s, seq!['\\'], seq![c] + (spec_escape(rest) + seq!['"']), i);
            lemma_match_char(s, '\\', i);
            lemma_match_split(s, seq![c], spec_escape(rest) + seq!['"'], i + 1);
            lemma_match_char(s, c, i + 1);
            lemma_sp_string_chars_emit(rest, s, i + 2);
            assert(seq![s[i + 1]] + rest =~= orig);
        } else {
            assert(esc + seq!['"'] =~= seq![c] + (spec_escape(rest) + seq!['"']));
            lemma_match_split(s, seq![c], spec_escape(rest) + seq!['"'], i);
            lemma_match_char(s, c, i);
            lemma_sp_string_chars_emit(rest, s, i + 1);
            assert(seq![s[i]] + rest =~= orig);
        }
    }
}

/// Reading a serialized string back recovers the original string.
proof fn lemma_sp_string_emit(orig: Seq<char>, s: Seq<char>, i: int)
    requires
        is_match_at(s, spec_json_string(orig), i),
    ensures
        sp_string(s, i) == Some((orig, i + spec_json_string(orig).len())),
{
    assert(spec_json_string(orig) =~= seq!['"'] + (spec_escape(orig) + seq!['"']));
    lemma_match_split(s, seq!['"'], spec_escape(orig) + seq!['"'], i);
    lemma_match_char(s, '"', i);
    lemma_sp_string_chars_emit(orig, s, i + 1);
}

/// A match pins each of the pattern's characters.
proof fn lemma_match_index(s: Seq<char>, pat: Seq<char>, i: int, k: int)
    requires
        is_match_at(s, pat, i),
        0 <= k < pat.len(),
    ensures
        s[i + k] == pat[k],
        0 <= i + k < s.len(),
{
    assert(s.subrange(i, i + pat.len())[k] == s[i + k]);
}

/// A string without quotes and backslashes escapes to itself.
proof fn lemma_escape_identity(k: Seq<char>)
    requires
        forall|j: int| 0 <= j < k.len() ==> k[j] != '"' && k[j] != '\\',
    ensures
        spec_escape(k) == k,
    decreases k.len(),
{
    if k.len() == 0 {
        assert(spec_escape(k) =~= k);
    } else {
        lemma_escape_identity(k.skip(1));
        assert(esc_char(k[0]) =~= seq![k[0]]);
        assert(spec_escape(k) =~= seq![k[0]] + k.skip(1));
        assert(seq![k[0]] + k.skip(1) =~= k);
    }
}

/// A field literal `c "key":` matched at `i` yields the quoted key and its
/// colon right after the leading character.
proof fn lemma_field_match(s: Seq<char>, lit: Seq<char>, key: Seq<char>, i: int)
    requires
        is_match_at(s, lit, i),
        spec_escape(key) == key,
        lit.len() == key.len() + 4,
        lit[1] == '"',
        lit[key.len() + 2 as int] == '"',
        lit[key.len() + 3 as int] == ':',
        forall|j: int| 0 <= j < key.len() ==> lit[2 + j] == key[j],
    ensures
        is_match_at(s, spec_json_string(key) + seq![':'], i + 1),
{
    let t = spec_json_string(key) + seq![':'];
    assert(spec_json_string(key) =~= seq!['"'] + key + seq!['"']);
    assert(t.len() == key.len() + 3);
    assert forall|j: int| 0 <= j < t.len() implies s[i + 1 + j] == t[j] by {
        lemma_match_index(s, lit, i, 1 + j);
        if j == 0 {
            assert(t[0] == '"');
        } else if j < key.len() + 1 {
            assert(t[j] == key[j - 1]);
            assert(lit[1 + j] == key[j - 1]);
        } else if j == key.len() + 1 {
            assert(t[j] == '"');
        } else {
            assert(t[j] == ':');
        }
    }
    assert(s.subrange(i + 1, i + 1 + t.len()) =~= t);
}

/// Reading a serialized string back as a value recovers the original string.
proof fn lemma_sp_value_emit_str(orig: Seq<char>, s: Seq<char>, i: int)
    requires
        is_match_at(s, spec_json_string(orig), i),
    ensures
        sp_value(s, i) == Some((JsonVal::Str(orig), i + spec_json_string(orig).len())),
{
    assert(spec_json_string(orig) =~= seq!['"'] + (spec_escape(orig) + seq!['"']));
    lemma_match_split(s, seq!['"'], spec_escape(orig) + seq!['"'], i);
    lemma_match_char(s, '"', i);
    lemma_sp_string_chars_emit(orig, s, i + 1);
}

/// Reading a serialized boolean back as a value recovers the original boolean.
proof fn lemma_sp_value_emit_bool(b: bool, s: Seq<char>, i: int)
    requires
        is_match_at(s, spec_json_bool(b), i),
    ensures
        sp_value(s, i) == Some((JsonVal::Bool(b), i + spec_json_bool(b).len())),
{
    reveal_strlit("true");
    reveal_strlit("false");
    lemma_match_index(s, spec_json_bool(b), i, 0);
    if b {
    } else {
        if is_match_at(s, "true"@, i) {
            lemma_match_index(s, "true"@, i, 0);
            assert(false);
        }
    }
}

/// The integer code a profile kind serializes to.
pub open spec fn type_code_val(t: ConfigItemType) -> int {
    match t {
        ConfigItemType::User => 1,
        ConfigItemType::System => 0,
    }
}

/// Reading a serialized kind code back as a value recovers the code.
proof fn lemma_sp_value_emit_code(t: ConfigItemType, s: Seq<char>, i: int)
    requires
        is_match_at(s, spec_type_code(t), i),
        i + 1 < s.len(),
        !is_digit(s[i + 1]),
    ensures
        spec_type_code(t).len() == 1,
        sp_value(s, i) == Some((JsonVal::Int(type_code_val(t)), i + 1)),
{
    reveal_strlit("0");
    reveal_strlit("1");
    reveal_strlit("true");
    reveal_strlit("false");
    reveal_strlit("null");
    lemma_match_index(s, spec_type_code(t), i, 0);
    if is_match_at(s, "true"@, i) {
        lemma_match_index(s, "true"@, i, 0);
        assert(false);
    }
    if is_match_at(s, "false"@, i) {
        lemma_match_index(s, "false"@, i, 0);
        assert(false);
    }
    if is_match_at(s, "null"@, i) {
        lemma_match_index(s, "null"@, i, 0);
        assert(false);
    }
    assert(is_digit(s[i]));
    assert(digit_run_end(s, i + 1) == i + 1);
    assert(digit_run_end(s, i) == i + 1);
    assert(digits_value(s, i, i) == 0);
    assert(digits_value(s, i, i + 1) == s[i] as u32 - 48);
}

/// Reading a serialized `"key": value` pair back, with the value's reading
/// given, recovers the pair.
proof fn lemma_sp_pair_emit(key: Seq<char>, jv: JsonVal, vlen: int, s: Seq<char>, i: int)
    requires
        spec_escape(key) == key,
        is_match_at(s, spec_json_string(key) + seq![':'], i),
        sp_value(s, i + spec_json_string(key).len() + 1) == Some(
            (jv, i + spec_json_string(key).len() + 1 + vlen),
        ),
        i + spec_json_string(key).len() + 1 < s.len(),
        !is_json_ws(s[i + spec_json_string(key).len() + 1]),
    ensures
        sp_pair(s, i) == Some(((key, jv), i + spec_json_string(key).len() + 1 + vlen)),
{
    lemma_match_split(s, spec_json_string(key), seq![':'], i);
    lemma_sp_string_emit(key, s, i);
    let c = i + spec_json_string(key).len();
    lemma_match_char(s, ':', c);
    assert(ws_end(s, c) == c);
    assert(ws_end(s, c + 1) == c + 1);
}

/// A serialized entry is never empty.
proof fn lemma_json_item_len_pos(it: ConfigItemView)
    ensures
        spec_json_item(it).len() >= 6,
        spec_json_item(it)[0] == '{',
{
    reveal_strlit("{\"id\":");
    let l1 = "{\"id\":"@;
    assert(spec_json_item(it)[0] == l1[0]) by {
        assert((l1 + spec_json_string(it.id))[0] == l1[0]);
    }
}

/// Reading a serialized entry back recovers the original entry.
#[verifier::spinoff_prover]
#[verifier::rlimit(100)]
proof fn lemma_sp_item_emit(it: ConfigItemView, s: Seq<char>, i: int)
    requires
        is_match_at(s, spec_json_item(it), i),
    ensures
        sp_item(s, i) == Some((it, i + spec_json_item(it).len())),
{
    let l1 = "{\"id\":"@;
    let p1 = spec_json_string(it.id);
    let l2 = ",\"on\":"@;
    let p2 = spec_json_bool(it.on);
    let l3 = ",\"title\":"@;
    let p3 = spec_json_string(it.title);
    let l4 = ",\"item_type\":"@;
    let p4 = spec_type_code(it.item_type);
    let l5 = "}"@;
    reveal_strlit("{\"id\":");
    reveal_strlit(",\"on\":");
    reveal_strlit(",\"title\":");
    reveal_strlit(",\"item_type\":");
    reveal_strlit("}");
    reveal_strlit("id");
    reveal_strlit("on");
    reveal_strlit("title");
    reveal_strlit("item_type");
    reveal_strlit("true");
    reveal_strlit("false");
    reveal_strlit("0");
    reveal_strlit("1");
    assert(spec_json_item(it) =~= l1 + (p1 + (l2 + (p2 + (l3 + (p3 + (l4 + (p4 + l5))))))));
    lemma_match_split(s, l1, p1 + (l2 + (p2 + (l3 + (p3 + (l4 + (p4 + l5)))))), i);
    let i1 = i + l1.len();
    lemma_match_split(s, p1, l2 + (p2 + (l3 + (p3 + (l4 + (p4 + l5))))), i1);
    let i2 = i1 + p1.len();
    lemma_match_split(s, l2, p2 + (l3 + (p3 + (l4 + (p4 + l5)))), i2);
    let i3 = i2 + l2.len();
    lemma_match_split(s, p2, l3 + (p3 + (l4 + (p4 + l5))), i3);
    let i4 = i3 + p2.len();
    lemma_match_split(s, l3, p3 + (l4 + (p4 + l5)), i4);
    let i5 = i4 + l3.len();
    lemma_match_split(s, p3, l4 + (p4 + l5), i5);
    let i6 = i5 + p3.len();
    lemma_match_split(s, l4, p4 + l5, i6);
    let i7 = i6 + l4.len();
    lemma_match_split(s, p4, l5, i7);
    let i8 = i7 + p4.len();
    // the pair of each field, in order
    let idk = "id"@;
    let onk = "on"@;
    let titlek = "title"@;
    let typek = "item_type"@;
    assert forall|j: int| 0 <= j < idk.len() implies idk[j] != '"' && idk[j] != '\\' by {}
    assert forall|j: int| 0 <= j < onk.len() implies onk[j] != '"' && onk[j] != '\\' by {}
    assert forall|j: int| 0 <= j < titlek.len() implies titlek[j] != '"' && titlek[j] != '\\' by {}
    assert forall|j: int| 0 <= j < typek.len() implies typek[j] != '"' && typek[j] != '\\' by {}
    lemma_escape_identity(idk);
    lemma_escape_identity(onk);
    lemma_escape_identity(titlek);
    lemma_escape_identity(typek);
    lemma_field_match(s, l1, idk, i);
    lemma_match_index(s, p1, i1, 0);
    assert(p1[0] == '"') by {
        assert((seq!['"'] + spec_escape(it.id))[0] == '"');
        assert(p1 =~= (seq!['"'] + spec_escape(it.id)) + seq!['"']);
    }
    lemma_sp_value_emit_str(it.id, s, i1);
    lemma_sp_pair_emit(idk, JsonVal::Str(it.id), p1.len() as int, s, i + 1);
    let pr1 = (idk, JsonVal::Str(it.id));
    assert(sp_pair(s, i + 1) == Some((pr1, i2)));
    lemma_field_match(s, l2, onk, i2);
    lemma_match_index(s, p2, i3, 0);
    lemma_sp_value_emit_bool(it.on, s, i3);
    lemma_sp_pair_emit(onk, JsonVal::Bool(it.on), p2.len() as int, s, i2 + 1);
    let pr2 = (onk, JsonVal::Bool(it.on));
    assert(sp_pair(s, i2 + 1) == Some((pr2, i4)));
    lemma_field_match(s, l3, titlek, i4);
    lemma_match_index(s, p3, i5, 0);
    assert(p3[0] == '"') by {
        assert((seq!['"'] + spec_escape(it.title))[0] == '"');
        assert(p3 =~= (seq!['"'] + spec_escape(it.title)) + seq!['"']);
    }
    lemma_sp_value_emit_str(it.title, s, i5);
    lemma_sp_pair_emit(titlek, JsonVal::Str(it.title), p3.len() as int, s, i4 + 1);
    let pr3 = (titlek, JsonVal::Str(it.title));
    assert(sp_pair(s, i4 + 1) == Some((pr3, i6)));
    lemma_field_match(s, l4, typek, i6);
    lemma_match_index(s, p4, i7, 0);
    lemma_match_index(s, l5, i8, 0);
    assert(!is_digit('}'));
    lemma_sp_value_emit_code(it.item_type, s, i7);
    lemma_sp_pair_emit(typek, JsonVal::Int(type_code_val(it.item_type)), 1, s, i6 + 1);
    let pr4 = (typek, JsonVal::Int(type_code_val(it.item_type)));
    assert(sp_pair(s, i6 + 1) == Some((pr4, i8)));
    // the object's brace, commas and closing brace, with no whitespace between
    lemma_match_index(s, l1, i, 0);
    lemma_match_index(s, l1, i, 1);
    assert(ws_end(s, i + 1) == i + 1);
    lemma_match_index(s, l2, i2, 0);
    lemma_match_index(s, l2, i2, 1);
    assert(ws_end(s, i2) == i2);
    assert(ws_end(s, i2 + 1) == i2 + 1);
    lemma_match_index(s, l3, i4, 0);
    lemma_match_index(s, l3, i4, 1);
    assert(ws_end(s, i4) == i4);
    assert(ws_end(s, i4 + 1) == i4 + 1);
    lemma_match_index(s, l4, i6, 0);
    lemma_match_index(s, l4, i6, 1);
    assert(ws_end(s, i6) == i6);
    assert(ws_end(s, i6 + 1) == i6 + 1);
    assert(ws_end(s, i8) == i8);
    // the pair list, folded from the back
    assert(sp_pairs(s, i6 + 1) == Some((seq![pr4], i8 + 1)));
    assert(sp_pairs(s, i4 + 1) == Some((seq![pr3] + seq![pr4], i8 + 1)));
    assert(sp_pairs(s, i2 + 1) == Some((seq![pr2] + (seq![pr3] + seq![pr4]), i8 + 1)));
    assert(sp_pairs(s, i + 1) == Some(
        (seq![pr1] + (seq![pr2] + (seq![pr3] + seq![pr4])), i8 + 1),
    ));
    assert(sp_obj(s, i) == Some((seq![pr1] + (seq![pr2] + (seq![pr3] + seq![pr4])), i8 + 1)));
    let pairs = seq![pr1, pr2, pr3, pr4];
    assert(seq![pr1] + (seq![pr2] + (seq![pr3] + seq![pr4])) =~= pairs);
    // the four lookups: the keys are pairwise distinct
    assert(idk != onk) by {
        assert(idk[0] == 'i');
        assert(onk[0] == 'o');
    }
    let pairs3 = seq![pr1, pr2, pr3];
    let pairs2 = seq![pr1, pr2];
    let pairs1 = seq![pr1];
    assert(pairs.drop_last() =~= pairs3);
    assert(pairs3.drop_last() =~= pairs2);
    assert(pairs2.drop_last() =~= pairs1);
    assert(lookup(pairs, typek) == Some(pr4.1));
    assert(lookup(pairs, idk) == Some(pr1.1)) by {
        assert(lookup(pairs, idk) == lookup(pairs3, idk));
        assert(lookup(pairs3, idk) == lookup(pairs2, idk));
        assert(lookup(pairs2, idk) == lookup(pairs1, idk));
    }
    assert(lookup(pairs, titlek) == Some(pr3.1)) by {
        assert(lookup(pairs, titlek) == lookup(pairs3, titlek));
    }
    assert(lookup(pairs, onk) == Some(pr2.1)) by {
        assert(lookup(pairs, onk) == lookup(pairs3, onk));
        assert(lookup(pairs3, onk) == lookup(pairs2, onk));
    }
    assert(decode_type(Some(JsonVal::Int(type_code_val(it.item_type)))) == it.item_type);
    match decode_item(pairs) {
        Some(v) => {
            assert(v =~= it);
        },
        None => {
            assert(false);
        },
    }
    assert(i8 + 1 == i + spec_json_item(it).len());
}

/// Reading the serialized entries of a non-empty list back, with the closing
/// bracket after them, recovers the original list.
proof fn lemma_sp_items_emit(items: Seq<ConfigItemView>, s: Seq<char>, i: int)
    requires
        items.len() >= 1,
        is_match_at(s, spec_json_items(items) + seq![']'], i),
    ensures
        sp_items(s, i) == Some((items, i + spec_json_items(items).len() + 1)),
    decreases items.len(),
{
    lemma_json_item_len_pos(items[0]);
    if items.len() == 1 {
        assert(spec_json_items(items) + seq![']'] =~= spec_json_item(items[0]) + seq![']']);
        lemma_match_split(s, spec_json_item(items[0]), seq![']'], i);
        lemma_sp_item_emit(items[0], s, i);
        let j = i + spec_json_item(items[0]).len();
        lemma_match_char(s, ']', j);
        assert(ws_end(s, j) == j);
        assert(seq![items[0]] =~= items);
    } else {
        let rest = items.skip(1);
        assert(spec_json_items(items) == spec_json_item(items[0]) + seq![','] + spec_json_items(
            rest,
        ));
        assert(spec_json_items(items) + seq![']'] =~= spec_json_item(items[0]) + (seq![','] + (
        spec_json_items(rest) + seq![']'])));
        lemma_match_split(s, spec_json_item(items[0]), seq![','] + (spec_json_items(rest) + seq![
            ']',
        ]), i);
        lemma_sp_item_emit(items[0], s, i);
        let j = i + spec_json_item(items[0]).len();
        lemma_match_split(s, seq![','], spec_json_items(rest) + seq![']'], j);
        lemma_match_char(s, ',', j);
        assert(ws_end(s, j) == j);
        // the next entry opens right after the comma
        lemma_json_item_len_pos(rest[0]);
        lemma_match_index(s, spec_json_items(rest) + seq![']'], j + 1, 0);
        assert((spec_json_items(rest) + seq![']'])[0] == spec_json_items(rest)[0]);
        assert(spec_json_items(rest)[0] == '{') by {
            if rest.len() == 1 {
            } else {
                assert((spec_json_item(rest[0]) + seq![','] + spec_json_items(rest.skip(1)))[0]
                    == spec_json_item(rest[0])[0]);
            }
        }
        assert(ws_end(s, j + 1) == j + 1);
        lemma_sp_items_emit(rest, s, j + 1);
        assert(seq![items[0]] + rest =~= items);
    }
}

/// Round trip: reading a serialized profile list back yields exactly the
/// written list, order, flags, titles and kinds preserved.
pub proof fn lemma_metadata_round_trip(items: Seq<ConfigItemView>)
    ensures
        sp_config(spec_json_config(items)) == Some(items),
        spec_parse_config(spec_json_config(items)) == items,
{
    let inner = spec_json_items(items);
    let s = spec_json_config(items);
    assert(s[0] == '[');
    assert(ws_end(s, 0) == 0);
    if items.len() == 0 {
        assert(s.len() == 2);
        assert(s[1] == ']');
        assert(ws_end(s, 1) == 1);
        assert(ws_end(s, 2) == 2);
    } else {
        lemma_json_item_len_pos(items[0]);
        assert(inner.len() >= 6);
        assert(s.len() >= 8);
        assert(s[1] == '{') by {
            assert(inner[0] == '{') by {
                if items.len() == 1 {
                } else {
                    assert((spec_json_item(items[0]) + seq![','] + spec_json_items(
                        items.skip(1),
                    ))[0] == spec_json_item(items[0])[0]);
                }
            }
            assert(s[1] == inner[0]);
        }
        assert(ws_end(s, 1) == 1);
        assert(is_match_at(s, inner + seq![']'], 1)) by {
            assert(s.subrange(1, s.len() as int) =~= inner + seq![']']);
        }
        lemma_sp_items_emit(items, s, 1);
        assert(ws_end(s, s.len() as int) == s.len());
    }
}

/// Writing the empty list emits the empty array, and reading the empty array
/// back yields the empty list — not an error.
pub proof fn lemma_empty_metadata_round_trip()
    ensures
        spec_json_config(Seq::<ConfigItemView>::empty()) == "[]"@,
        spec_parse_config("[]"@) == Seq::<ConfigItemView>::empty(),
{
    reveal_strlit("[]");
    assert(spec_json_config(Seq::<ConfigItemView>::empty()) =~= "[]"@);
    lemma_metadata_round_trip(Seq::<ConfigItemView>::empty());
}

/// A decimal digit, mirroring `is_digit`.
fn is_digit_exec(c: char) -> (r: bool)
    ensures
        r == is_digit(c),
{
    let v = c as u32;
    48 <= v && v <= 57
}

/// Parse string characters after the opening quote, mirroring
/// `sp_string_chars`.
fn parse_string_chars(s: &Vec<char>, i: usize) -> (r: Option<(Vec<char>, usize)>)
    ensures
        match r {
            Some(p) => sp_string_chars(s@, i as int) == Some((p.0@, p.1 as int)),
            None => sp_string_chars(s@, i as int) is None,
        },
    decreases s@.len() - i + 1,
{
    if i >= s.len() {
        return None;
    }
    let c = s[i];
    if c == '"' {
        Some((Vec::new(), i + 1))
    } else if c == '\\' {
        if i + 1 < s.len() && (s[i + 1] == '"' || s[i + 1] == '\\') {
            match parse_string_chars(s, i + 2) {
                Some((mut t, j)) => {
                    let e = s[i + 1];
                    t.insert(0, e);
                    proof {
                        assert(t@ =~= seq![s@[i as int + 1]] + t@.skip(1));
                    }
                    Some((t, j))
                },
                None => None,
            }
        } else {
            None
        }
    } else {
        match parse_string_chars(s, i + 1) {
            Some((mut t, j)) => {
                t.insert(0, c);
                proof {
                    assert(t@ =~= seq![s@[i as int]] + t@.skip(1));
                }
                Some((t, j))
            },
            None => None,
        }
    }
}

/// Parse a quoted string, mirroring `sp_string`.
fn parse_string(s: &Vec<char>, i: usize) -> (r: Option<(Vec<char>, usize)>)
    ensures
        match r {
            Some(p) => sp_string(s@, i as int) == Some((p.0@, p.1 as int)),
            None => sp_string(s@, i as int) is None,
        },
{
    if i < s.len() && s[i] == '"' {
        parse_string_chars(s, i + 1)
    } else {
        None
    }
}

/// Skip whitespace, mirroring `ws_end`.
fn skip_ws(s: &Vec<char>, i: usize) -> (r: usize)
    ensures
        r == ws_end(s@, i as int),
        i <= r,
{
    let n = s.len();
    let mut r = i;
    while r < n && is_json_ws_exec(s[r])
        invariant
            i <= r,
            n == s@.len(),
            ws_end(s@, i as int) == ws_end(s@, r as int),
        decreases n - r,
    {
        r = r + 1;
    }
    r
}

/// A whitespace character, mirroring `is_json_ws`.
fn is_json_ws_exec(c: char) -> (r: bool)
    ensures
        r == is_json_ws(c),
{
    c == ' ' || c == '\t' || c == '\n' || c == '\r'
}

/// Whether two character vectors hold the same characters.
fn chars_eq(a: &Vec<char>, b: &Vec<char>) -> (r: bool)
    ensures
        r == (a@ == b@),
{
    if a.len() != b.len() {
        return false;
    }
    let r = lit_at(a, 0, b);
    proof {
        if is_match_at(a@, b@, 0) {
            assert(a@.subrange(0, a@.len() as int) =~= a@);
            assert(a@ =~= b@);
        } else {
            if a@ == b@ {
                assert(a@.subrange(0, b@.len() as int) =~= b@);
            }
        }
    }
    r
}

/// Ten to the `n`th.
pub open spec fn spec_pow10(n: nat) -> int
    decreases n,
{
    if n == 0 {
        1
    } else {
        10 * spec_pow10((n - 1) as nat)
    }
}

proof fn lemma_pow10_le(a: nat, b: nat)
    requires
        a <= b,
    ensures
        1 <= spec_pow10(a) <= spec_pow10(b),
    decreases b,
{
    if b == 0 {
    } else if a == b {
        lemma_pow10_le((a - 1) as nat, (b - 1) as nat);
    } else {
        lemma_pow10_le(a, (b - 1) as nat);
    }
}

/// A scan that stopped at the first non-digit pins `digit_run_end`.
proof fn lemma_digit_run(t: Seq<char>, i: int, m: int)
    requires
        0 <= i <= m <= t.len(),
        forall|k: int| i <= k < m ==> is_digit(t[k]),
        m < t.len() ==> !is_digit(t[m]),
    ensures
        digit_run_end(t, i) == m,
    decreases m - i,
{
    if i < m {
        lemma_digit_run(t, i + 1, m);
    }
}

/// Parse an integer, mirroring `sp_int`.
fn parse_int(s: &Vec<char>, i: usize) -> (r: Option<(i64, usize)>)
    ensures
        match r {
            Some(p) => sp_int(s@, i as int) == Some((p.0 as int, p.1 as int)),
            None => sp_int(s@, i as int) is None,
        },
{
    let n = s.len();
    let neg = i < n && s[i] == '-';
    let d0 = if neg {
        i + 1
    } else {
        i
    };
    if !(d0 < n && is_digit_exec(s[d0])) {
        return None;
    }
    let mut e = d0;
    while e < n && is_digit_exec(s[e])
        invariant
            d0 <= e <= n,
            n == s@.len(),
            forall|k: int| d0 <= k < e ==> is_digit(s@[k]),
        decreases n - e,
    {
        e = e + 1;
    }
    proof {
        lemma_digit_run(s@, d0 as int, e as int);
    }
    if e - d0 > 18 {
        return None;
    }
    let mut acc: u64 = 0;
    let mut j = d0;
    proof {
        assert(digits_value(s@, d0 as int, d0 as int) == 0);
    }
    while j < e
        invariant
            d0 <= j <= e <= n,
            e - d0 <= 18,
            n == s@.len(),
            forall|k: int| d0 <= k < e ==> is_digit(s@[k]),
            acc == digits_value(s@, d0 as int, j as int),
            acc < spec_pow10((j - d0) as nat),
        decreases e - j,
    {
        let d = (s[j] as u32) - 48;
        proof {
            lemma_pow10_le((j - d0) as nat, 17);
            reveal_with_fuel(spec_pow10, 20);
            assert(spec_pow10((j + 1 - d0) as nat) == 10 * spec_pow10((j - d0) as nat));
        }
        acc = acc * 10 + (d as u64);
        j = j + 1;
    }
    proof {
        lemma_pow10_le((e - d0) as nat, 18);
        reveal_with_fuel(spec_pow10, 20);
    }
    let mag = acc as i64;
    if neg {
        Some((-mag, e))
    } else {
        Some((mag, e))
    }
}

/// A scalar field value, mirroring `JsonVal`.
enum JVal {
    Str(Vec<char>),
    Int(i64),
    Bool(bool),
    Null,
}

/// The mathematical value behind a scalar field value.
spec fn jval_view(v: JVal) -> JsonVal {
    match v {
        JVal::Str(t) => JsonVal::Str(t@),
        JVal::Int(n) => JsonVal::Int(n as int),
        JVal::Bool(b) => JsonVal::Bool(b),
        JVal::Null => JsonVal::Null,
    }
}

/// The mathematical values behind a pair list.
spec fn pairs_view(v: Seq<(Vec<char>, JVal)>) -> Seq<(Seq<char>, JsonVal)> {
    v.map_values(|p: (Vec<char>, JVal)| (p.0@, jval_view(p.1)))
}

/// Parse one scalar value, mirroring `sp_value`.
fn parse_value(s: &Vec<char>, i: usize) -> (r: Option<(JVal, usize)>)
    ensures
        match r {
            Some(p) => sp_value(s@, i as int) == Some((jval_view(p.0), p.1 as int)),
            None => sp_value(s@, i as int) is None,
        },
{
    let n = s.len();
    if i < n && s[i] == '"' {
        match parse_string_chars(s, i + 1) {
            Some((t, j)) => Some((JVal::Str(t), j)),
            None => None,
        }
    } else {
        let lit_true = str_to_chars("true");
        let lit_false = str_to_chars("false");
        let lit_null = str_to_chars("null");
        if lit_at(s, i, &lit_true) {
            Some((JVal::Bool(true), i + lit_true.len()))
        } else if lit_at(s, i, &lit_false) {
            Some((JVal::Bool(false), i + lit_false.len()))
        } else if lit_at(s, i, &lit_null) {
            Some((JVal::Null, i + lit_null.len()))
        } else {
            match parse_int(s, i) {
                Some((v, e)) => Some((JVal::Int(v), e)),
                None => None,
            }
        }
    }
}

/// Parse one `"key": value` pair, mirroring `sp_pair`.
fn parse_pair(s: &Vec<char>, i: usize) -> (r: Option<((Vec<char>, JVal), usize)>)
    ensures
        match r {
            Some(p) => sp_pair(s@, i as int) == Some(((p.0.0@, jval_view(p.0.1)), p.1 as int)),
            None => sp_pair(s@, i as int) is None,
        },
{
    let (key, j) = match parse_string(s, i) {
        Some(p) => p,
        None => {
            return None;
        },
    };
    let c = skip_ws(s, j);
    if !(c < s.len() && s[c] == ':') {
        return None;
    }
    let v0 = skip_ws(s, c + 1);
    match parse_value(s, v0) {
        Some((v, e)) => Some(((key, v), e)),
        None => None,
    }
}

/// Parse the pairs of a non-empty object, mirroring `sp_pairs`.
fn parse_pairs(s: &Vec<char>, i: usize) -> (r: Option<(Vec<(Vec<char>, JVal)>, usize)>)
    ensures
        match r {
            Some(p) => sp_pairs(s@, i as int) matches Some(q) && q.0 == pairs_view(p.0@) && q.1
                == p.1 as int,
            None => sp_pairs(s@, i as int) is None,
        },
    decreases s@.len() - i + 1,
{
    match parse_pair(s, i) {
        None => None,
        Some((pair, j)) => {
            if j <= i {
                return None;
            }
            let k = skip_ws(s, j);
            if k < s.len() && s[k] == ',' {
                let n0 = skip_ws(s, k + 1);
                if n0 <= i || n0 > s.len() {
                    return None;
                }
                match parse_pairs(s, n0) {
                    Some((mut rest, end)) => {
                        rest.insert(0, pair);
                        proof {
                            assert(pairs_view(rest@) =~= seq![
                                (rest@[0].0@, jval_view(rest@[0].1)),
                            ] + pairs_view(rest@.skip(1)));
                        }
                        Some((rest, end))
                    },
                    None => None,
                }
            } else if k < s.len() && s[k] == '}' {
                let mut v: Vec<(Vec<char>, JVal)> = Vec::new();
                v.push(pair);
                proof {
                    assert(pairs_view(v@) =~= seq![(v@[0].0@, jval_view(v@[0].1))]);
                }
                Some((v, k + 1))
            } else {
                None
            }
        },
    }
}

/// The value of the last pair carrying `key`, mirroring `lookup`.
fn lookup_exec<'a>(pairs: &'a Vec<(Vec<char>, JVal)>, key: &Vec<char>) -> (r: Option<&'a JVal>)
    ensures
        match r {
            Some(v) => lookup(pairs_view(pairs@), key@) == Some(jval_view(*v)),
            None => lookup(pairs_view(pairs@), key@) is None,
        },
{
    let mut k = pairs.len();
    proof {
        assert(pairs_view(pairs@).subrange(0, k as int) =~= pairs_view(pairs@));
    }
    while k > 0
        invariant
            0 <= k <= pairs@.len(),
            lookup(pairs_view(pairs@), key@) == lookup(
                pairs_view(pairs@).subrange(0, k as int),
                key@,
            ),
        decreases k,
    {
        k = k - 1;
        proof {
            assert(pairs_view(pairs@).subrange(0, k + 1).last() == pairs_view(pairs@)[k as int]);
            assert(pairs_view(pairs@)[k as int] == (pairs@[k as int].0@, jval_view(
                pairs@[k as int].1,
            )));
            assert(pairs_view(pairs@).subrange(0, k + 1).drop_last() =~= pairs_view(
                pairs@,
            ).subrange(0, k as int));
        }
        let (pk, pv) = &pairs[k];
        if chars_eq(pk, key) {
            return Some(pv);
        }
    }
    proof {
        assert(pairs_view(pairs@).subrange(0, 0) =~= Seq::<(Seq<char>, JsonVal)>::empty());
    }
    None
}

/// Parse one profile entry, mirroring `sp_item` with its per-field defaults.
fn parse_item(s: &Vec<char>, i: usize) -> (r: Option<(ConfigItem, usize)>)
    ensures
        match r {
            Some(p) => sp_item(s@, i as int) matches Some(q) && q.0 == p.0@ && q.1 == p.1 as int,
            None => sp_item(s@, i as int) is None,
        },
{
    let n = s.len();
    if !(i < n && s[i] == '{') {
        return None;
    }
    let b = skip_ws(s, i + 1);
    let (pairs, end) = if b < n && s[b] == '}' {
        let empty_pairs: Vec<(Vec<char>, JVal)> = Vec::new();
        proof {
            assert(pairs_view(empty_pairs@) =~= Seq::<(Seq<char>, JsonVal)>::empty());
        }
        (empty_pairs, b + 1)
    } else {
        match parse_pairs(s, b) {
            Some(p) => p,
            None => {
                return None;
            },
        }
    };
    let key_id = str_to_chars("id");
    let key_title = str_to_chars("title");
    let key_on = str_to_chars("on");
    let key_type = str_to_chars("item_type");
    let id = match lookup_exec(&pairs, &key_id) {
        Some(JVal::Str(t)) => chars_to_string(t),
        _ => {
            return None;
        },
    };
    let title = match lookup_exec(&pairs, &key_title) {
        Some(JVal::Str(t)) => chars_to_string(t),
        _ => {
            return None;
        },
    };
    let on = match lookup_exec(&pairs, &key_on) {
        Some(JVal::Bool(bv)) => *bv,
        _ => false,
    };
    let item_type = match lookup_exec(&pairs, &key_type) {
        Some(JVal::Int(nv)) => ConfigItemType::from(*nv),
        _ => ConfigItemType::User,
    };
    let item = ConfigItem::new(id, on, title, item_type);
    Some((item, end))
}

/// Parse the entries of a non-empty array, mirroring `sp_items`.
fn parse_items(s: &Vec<char>, i: usize) -> (r: Option<(Vec<ConfigItem>, usize)>)
    ensures
        match r {
            Some(p) => sp_items(s@, i as int) matches Some(q) && q.0 == items_view(p.0@) && q.1
                == p.1 as int,
            None => sp_items(s@, i as int) is None,
        },
    decreases s@.len() - i + 1,
{
    match parse_item(s, i) {
        None => None,
        Some((item, j)) => {
            if j <= i {
                return None;
            }
            let k = skip_ws(s, j);
            if k < s.len() && s[k] == ',' {
                let n0 = skip_ws(s, k + 1);
                if n0 <= i || n0 > s.len() {
                    return None;
                }
                match parse_items(s, n0) {
                    Some((mut rest, end)) => {
                        rest.insert(0, item);
                        proof {
                            assert(items_view(rest@) =~= seq![rest@[0]@] + items_view(
                                rest@.skip(1),
                            ));
                        }
                        Some((rest, end))
                    },
                    None => None,
                }
            } else if k < s.len() && s[k] == ']' {
                let mut v: Vec<ConfigItem> = Vec::new();
                v.push(item);
                proof {
                    assert(items_view(v@) =~= seq![v@[0]@]);
                }
                Some((v, k + 1))
            } else {
                None
            }
        },
    }
}

/// Read a metadata text: the list it holds, per the lenient reader above, or
/// the empty list for any text the reader refuses — never an error.
pub fn parse_config(text: &str) -> (r: Vec<ConfigItem>)
    ensures
        items_view(r@) == spec_parse_config(text@),
{
    let s = str_to_chars(text);
    let n = s.len();
    let a = skip_ws(&s, 0);
    if !(a < n && s[a] == '[') {
        let r: Vec<ConfigItem> = Vec::new();
        proof {
            assert(items_view(r@) =~= Seq::<ConfigItemView>::empty());
        }
        return r;
    }
    let b = skip_ws(&s, a + 1);
    if b < n && s[b] == ']' {
        // an empty array parses empty; so does one with trailing garbage,
        // through the lenient fallback
        let r: Vec<ConfigItem> = Vec::new();
        proof {
            assert(items_view(r@) =~= Seq::<ConfigItemView>::empty());
        }
        return r;
    }
    match parse_items(&s, b) {
        Some((items, j)) => {
            if skip_ws(&s, j) == n {
                items
            } else {
                let r: Vec<ConfigItem> = Vec::new();
                proof {
                    assert(items_view(r@) =~= Seq::<ConfigItemView>::empty());
                }
                r
            }
        },
        None => {
            let r: Vec<ConfigItem> = Vec::new();
            proof {
                assert(items_view(r@) =~= Seq::<ConfigItemView>::empty());
            }
            r
        },
    }
}

} // verus!

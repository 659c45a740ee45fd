//! Reading back a written project file gives back the project.
use vstd::prelude::*;

use crate::json::{
    decimal_text, digit_char, digits_end, escape_char, escape_spec, find_char_from, find_from,
    is_number_char, key_pattern, key_tail, number_end, occurs_at, scan_objects, skip_space,
    array_field, number_field, object_items, parse_json_spec, parse_track, parse_tracks,
    parse_unsigned, project_json, rfind_char, string_field, track_json, tracks_json, u64_field,
    unescape, from_record_spec, RecordView,
};
use crate::json::ProjectError;
use crate::project::{tempo_in_range, ProjectView};
use crate::project::TrackView;
use crate::text::{all_digits, decimal_value, digit_value, is_digit, is_space};

verus! {

/// `piece` stands in `s` at index `off`.
pub open spec fn at(s: Seq<char>, off: int, piece: Seq<char>) -> bool {
    0 <= off && off + piece.len() <= s.len() && s.subrange(off, off + piece.len()) == piece
}

proof fn lemma_at_char(s: Seq<char>, off: int, piece: Seq<char>, i: int)
    requires
        at(s, off, piece),
        0 <= i < piece.len(),
    ensures
        s[off + i] == piece[i],
{
    assert(s.subrange(off, off + piece.len())[i] == piece[i]);
}

proof fn lemma_at_split(s: Seq<char>, off: int, x: Seq<char>, y: Seq<char>)
    requires
        at(s, off, x + y),
    ensures
        at(s, off, x),
        at(s, off + x.len(), y),
{
    assert(s.subrange(off, off + x.len()) =~= s.subrange(off, off + (x + y).len()).subrange(0, x.len() as int));
    assert((x + y).subrange(0, x.len() as int) =~= x);
    assert(s.subrange(off + x.len(), off + x.len() + y.len()) =~= s.subrange(off, off + (x + y).len()).subrange(x.len() as int, (x + y).len() as int));
    assert((x + y).subrange(x.len() as int, (x + y).len() as int) =~= y);
}

/// The decimal text of a number reads back as that number.
pub proof fn lemma_decimal_round_trip(n: nat)
    ensures
        decimal_text(n).len() > 0,
        all_digits(decimal_text(n)),
        decimal_value(decimal_text(n)) == n,
    decreases n,
{
    let d = n % 10;
    assert(is_digit(digit_char(d)) && digit_value(digit_char(d)) == d);
    assert(decimal_value(Seq::<char>::empty()) == 0);
    if n >= 10 {
        lemma_decimal_round_trip(n / 10);
        let s = decimal_text(n);
        assert(s.drop_last() =~= decimal_text(n / 10));
        assert(s.last() == digit_char(d));
        assert(n == (n / 10) * 10 + d);
        assert forall|i: int| 0 <= i < s.len() implies is_digit(#[trigger] s[i]) by {
            if i < s.len() - 1 {
                assert(s[i] == decimal_text(n / 10)[i]);
            }
        }
    } else {
        assert(d == n);
        assert(decimal_text(n).drop_last() =~= Seq::<char>::empty());
        assert(decimal_text(n).last() == digit_char(n));
    }
}

/// Text without `\` and `"` is written as it is.
pub proof fn lemma_escape_plain(x: Seq<char>)
    requires
        forall|i: int| 0 <= i < x.len() ==> #[trigger] x[i] != '\\' && x[i] != '"',
    ensures
        escape_spec(x) == x,
    decreases x.len(),
{
    if x.len() > 0 {
        lemma_escape_plain(x.drop_last());
        assert(escape_spec(x) =~= x);
    }
}

/// Every `"` of a text in a JSON string stands behind a backslash.
pub open spec fn quotes_escaped(e: Seq<char>) -> bool {
    forall|i: int| 0 <= i < e.len() && #[trigger] e[i] == '"' ==> i >= 1 && e[i - 1] == '\\'
}

/// Escaping puts a backslash in front of every `"`.
proof fn lemma_escape_quotes(x: Seq<char>)
    ensures
        quotes_escaped(escape_spec(x)),
    decreases x.len(),
{
    if x.len() > 0 {
        lemma_escape_quotes(x.drop_last());
        let e = escape_spec(x);
        let e0 = escape_spec(x.drop_last());
        let c = x.last();
        assert forall|i: int| 0 <= i < e.len() && #[trigger] e[i] == '"' implies i >= 1 && e[i - 1] == '\\' by {
            if i < e0.len() {
                assert(e0[i] == '"');
                assert(e[i - 1] == e0[i - 1]);
            } else {
                assert(escape_char(c)[i - e0.len()] == '"');
                assert(e[i - 1] == escape_char(c)[i - 1 - e0.len()]);
            }
        }
    }
}

/// `s` ends with `suffix`.
pub open spec fn ends_with(s: Seq<char>, suffix: Seq<char>) -> bool {
    suffix.len() <= s.len() && s.subrange(s.len() - suffix.len(), s.len() as int) == suffix
}

/// Whether a project id is the key itself or ends with a `"` followed by the
/// key: then the key also occurs, quoted, inside the written id.
pub open spec fn names_key(id: Seq<char>, key: Seq<char>) -> bool {
    ends_with(seq!['"'] + id, seq!['"'] + key)
}

proof fn lemma_ends_with_push(a: Seq<char>, b: Seq<char>, c: char)
    ensures
        ends_with(a.push(c), b.push(c)) == ends_with(a, b),
{
    if b.len() <= a.len() {
        let x = a.push(c).subrange(a.len() + 1 - (b.len() + 1), a.len() + 1int);
        let y = a.subrange(a.len() - b.len(), a.len() as int);
        assert(x =~= y.push(c));
        if ends_with(a.push(c), b.push(c)) {
            assert(y =~= x.drop_last());
            assert(b =~= b.push(c).drop_last());
        }
    }
}

/// A written id that ends with a quoted key comes from an id that does.
proof fn lemma_id_suffix(x: Seq<char>, key: Seq<char>)
    requires
        forall|i: int| 0 <= i < key.len() ==> #[trigger] key[i] != '"' && key[i] != '\\',
        ends_with(seq!['"'] + escape_spec(x), seq!['"'] + key),
    ensures
        names_key(x, key),
    decreases key.len(),
{
    let e = escape_spec(x);
    let u = seq!['"'] + e;
    if key.len() == 0 {
        assert(u.subrange(u.len() - 1, u.len() as int)[0] == u.last());
        assert((seq!['"'] + key) =~= seq!['"']);
        if x.len() == 0 {
            assert((seq!['"'] + x).subrange(0, 1) =~= seq!['"']);
        } else {
            let c = x.last();
            assert(u.last() == escape_char(c).last());
            assert(c == '"');
            let v = seq!['"'] + x;
            assert(v.subrange(v.len() - 1, v.len() as int) =~= seq!['"']);
        }
    } else {
        let ck = key.last();
        let key0 = key.drop_last();
        assert(seq!['"'] + key =~= (seq!['"'] + key0).push(ck));
        assert(u.subrange(u.len() - 1, u.len() as int)[0] == u.last());
        assert((seq!['"'] + key)[key.len() as int] == ck);
        assert(u.subrange(u.len() - (key.len() + 1), u.len() as int)[key.len() as int] == u.last());
        assert(u.last() == ck);
        assert(ck != '"' && ck != '\\');
        assert(e.len() > 0);
        assert(x.len() > 0);
        let c = x.last();
        let x0 = x.drop_last();
        assert(e.last() == escape_char(c).last());
        assert(c == ck);
        assert(u =~= (seq!['"'] + escape_spec(x0)).push(ck));
        lemma_ends_with_push(seq!['"'] + escape_spec(x0), seq!['"'] + key0, ck);
        lemma_id_suffix(x0, key0);
        assert(seq!['"'] + x =~= (seq!['"'] + x0).push(ck));
        lemma_ends_with_push(seq!['"'] + x0, seq!['"'] + key0, ck);
    }
}

/// Reading an escaped text inside a string gives back the text.
pub proof fn lemma_unescape_escaped(s: Seq<char>, i: int, x: Seq<char>, acc: Seq<char>)
    requires
        at(s, i, escape_spec(x)),
    ensures
        unescape(s, i, false, acc) == unescape(s, i + escape_spec(x).len(), false, acc + x),
    decreases x.len(),
{
    if x.len() == 0 {
        assert(acc + x =~= acc);
    } else {
        let x0 = x.drop_last();
        let c = x.last();
        let e0 = escape_spec(x0);
        lemma_at_split(s, i, e0, escape_char(c));
        lemma_unescape_escaped(s, i, x0, acc);
        let j = i + e0.len();
        lemma_at_char(s, j, escape_char(c), 0);
        let a0 = acc + x0;
        if c == '\\' || c == '"' {
            lemma_at_char(s, j, escape_char(c), 1);
            assert(unescape(s, j, false, a0) == unescape(s, j + 1, true, a0));
            assert(unescape(s, j + 1, true, a0) == unescape(s, j + 2, false, a0.push(c)));
        } else {
            assert(unescape(s, j, false, a0) == unescape(s, j + 1, false, a0.push(c)));
        }
        assert(acc + x0 + seq![c] =~= acc + x);
        assert((acc + x0).push(c) =~= acc + x);
    }
}

/// A pattern whose first occurrence is at `p` is found there.
proof fn lemma_find_first(s: Seq<char>, pat: Seq<char>, i: int, p: int)
    requires
        0 <= i <= p,
        occurs_at(s, pat, p),
        forall|k: int| i <= k < p ==> !occurs_at(s, pat, k),
    ensures
        find_from(s, pat, i) == Some(p),
    decreases p - i,
{
    if i < p {
        lemma_find_first(s, pat, i + 1, p);
    }
}

/// A character whose first occurrence at or after `i` is at `j` is found there.
proof fn lemma_char_first(s: Seq<char>, c: char, i: int, j: int)
    requires
        0 <= i <= j < s.len(),
        s[j] == c,
        forall|k: int| i <= k < j ==> s[k] != c,
    ensures
        find_char_from(s, c, i) == Some(j),
    decreases j - i,
{
    if i < j {
        lemma_char_first(s, c, i + 1, j);
    }
}

/// A pattern does not occur where a character differs from it.
proof fn lemma_mismatch(s: Seq<char>, pat: Seq<char>, k: int, m: int)
    requires
        0 <= m < pat.len(),
        k + m < s.len() ==> s[k + m] != pat[m],
    ensures
        !occurs_at(s, pat, k),
{
    if occurs_at(s, pat, k) {
        assert(s.subrange(k, k + pat.len())[m] == pat[m]);
    }
}

/// Where the value of a key starts, from its first occurrence and the first
/// `:` after it.
proof fn lemma_key_tail(s: Seq<char>, key: Seq<char>, p: int, colon: int)
    requires
        0 <= p <= colon < s.len(),
        occurs_at(s, key_pattern(key), p),
        forall|k: int| 0 <= k < p ==> !occurs_at(s, key_pattern(key), k),
        s[colon] == ':',
        forall|k: int| p <= k < colon ==> s[k] != ':',
    ensures
        key_tail(s, key) == Some(colon + 1),
{
    lemma_find_first(s, key_pattern(key), 0, p);
    lemma_char_first(s, ':', p, colon);
}

/// Skipping white space stops at the first character that is not white space.
proof fn lemma_skip_space(s: Seq<char>, i: int, j: int)
    requires
        0 <= i <= j <= s.len(),
        forall|k: int| i <= k < j ==> is_space(#[trigger] s[k]),
        j < s.len() ==> !is_space(s[j]),
    ensures
        skip_space(s, i) == j,
    decreases j - i,
{
    if i < j {
        assert(is_space(s[i]));
        lemma_skip_space(s, i + 1, j);
    }
}

/// A run of digits ends at the first character that is not a digit.
proof fn lemma_digits_end(s: Seq<char>, i: int, j: int)
    requires
        0 <= i <= j <= s.len(),
        forall|k: int| i <= k < j ==> is_digit(#[trigger] s[k]),
        j < s.len() ==> !is_digit(s[j]),
    ensures
        digits_end(s, i) == j,
    decreases j - i,
{
    if i < j {
        assert(is_digit(s[i]));
        lemma_digits_end(s, i + 1, j);
    }
}

/// A run of number characters ends at the first character that is not one.
proof fn lemma_number_end(s: Seq<char>, i: int, j: int)
    requires
        0 <= i <= j <= s.len(),
        forall|k: int| i <= k < j ==> is_number_char(#[trigger] s[k]),
        j < s.len() ==> !is_number_char(s[j]),
    ensures
        number_end(s, i) == j,
    decreases j - i,
{
    if i < j {
        assert(is_number_char(s[i]));
        lemma_number_end(s, i + 1, j);
    }
}

/// Scanning characters that are neither quotes, backslashes nor braces
/// changes nothing.
proof fn lemma_scan_plain(
    s: Seq<char>,
    i: int,
    j: int,
    start: Option<int>,
    in_string: bool,
    items: Seq<(int, int)>,
)
    requires
        0 <= i <= j <= s.len(),
        forall|k: int|
            i <= k < j ==> s[k] != '"' && s[k] != '\\' && (in_string || (s[k] != '{' && s[k] != '}')),
    ensures
        scan_objects(s, i, start, in_string, false, items) == scan_objects(s, j, start, in_string, false, items),
    decreases j - i,
{
    if i < j {
        lemma_scan_plain(s, i + 1, j, start, in_string, items);
    }
}

/// Scanning an escaped text inside a string changes nothing.
proof fn lemma_scan_escaped(s: Seq<char>, i: int, x: Seq<char>, start: Option<int>, items: Seq<(int, int)>)
    requires
        at(s, i, escape_spec(x)),
    ensures
        scan_objects(s, i, start, true, false, items) == scan_objects(s, i + escape_spec(x).len(), start, true, false, items),
    decreases x.len(),
{
    if x.len() > 0 {
        let x0 = x.drop_last();
        let c = x.last();
        let e0 = escape_spec(x0);
        lemma_at_split(s, i, e0, escape_char(c));
        lemma_scan_escaped(s, i, x0, start, items);
        let j = i + e0.len();
        lemma_at_char(s, j, escape_char(c), 0);
        if c == '\\' || c == '"' {
            lemma_at_char(s, j, escape_char(c), 1);
            assert(scan_objects(s, j, start, true, false, items) == scan_objects(s, j + 1, start, true, true, items));
        }
    }
}

/// The characters of `piece` stand at `off` in `s`.
proof fn lemma_at_chars(s: Seq<char>, off: int, piece: Seq<char>)
    requires
        at(s, off, piece),
    ensures
        forall|k: int| off <= k < off + piece.len() ==> #[trigger] s[k] == piece[k - off],
{
    assert forall|k: int| off <= k < off + piece.len() implies #[trigger] s[k] == piece[k - off] by {
        lemma_at_char(s, off, piece, k - off);
    }
}

/// The pieces of a track object and where they stand.
proof fn lemma_track_pieces(s: Seq<char>, i: int, t: TrackView)
    requires
        at(s, i, track_json(t)),
    ensures
        ({
            let d = decimal_text(t.id as nat);
            let e = escape_spec(t.name);
            let i2 = i + 7 + d.len();
            let i4 = i2 + 10 + e.len();
            &&& at(s, i, "{\"id\":\""@)
            &&& at(s, i + 7, d)
            &&& at(s, i2, "\",\"name\":\""@)
            &&& at(s, i2 + 10, e)
            &&& at(s, i4, "\",\"kind\":\"audio\"}"@)
            &&& track_json(t).len() == i4 + 17 - i
        }),
{
    reveal_strlit("{\"id\":\"");
    reveal_strlit("\",\"name\":\"");
    reveal_strlit("\",\"kind\":\"audio\"}");
    let d = decimal_text(t.id as nat);
    let e = escape_spec(t.name);
    let l1 = "{\"id\":\""@;
    let l2 = "\",\"name\":\""@;
    let l3 = "\",\"kind\":\"audio\"}"@;
    lemma_at_split(s, i, l1 + d + l2 + e, l3);
    lemma_at_split(s, i, l1 + d + l2, e);
    lemma_at_split(s, i, l1 + d, l2);
    lemma_at_split(s, i, l1, d);
}

/// Scanning one track object records its index range.
proof fn lemma_scan_track(s: Seq<char>, i: int, t: TrackView, items: Seq<(int, int)>)
    requires
        at(s, i, track_json(t)),
    ensures
        scan_objects(s, i, None, false, false, items) == scan_objects(
            s,
            i + track_json(t).len(),
            None,
            false,
            false,
            items.push((i, i + track_json(t).len() - 1)),
        ),
{
    reveal_strlit("{\"id\":\"");
    reveal_strlit("\",\"name\":\"");
    reveal_strlit("\",\"kind\":\"audio\"}");
    lemma_track_pieces(s, i, t);
    let d = decimal_text(t.id as nat);
    let e = escape_spec(t.name);
    let i2 = i + 7 + d.len();
    let i3 = i2 + 10;
    let i4 = i3 + e.len();
    let l1 = "{\"id\":\""@;
    let l2 = "\",\"name\":\""@;
    let l3 = "\",\"kind\":\"audio\"}"@;
    lemma_at_chars(s, i, l1);
    lemma_at_chars(s, i2, l2);
    lemma_at_chars(s, i4, l3);
    lemma_decimal_round_trip(t.id as nat);
    lemma_at_chars(s, i + 7, d);
    let b = Some(i);
    assert(scan_objects(s, i, None, false, false, items) == scan_objects(s, i + 1, b, false, false, items));
    assert(scan_objects(s, i + 1, b, false, false, items) == scan_objects(s, i + 2, b, true, false, items));
    lemma_scan_plain(s, i + 2, i + 4, b, true, items);
    assert(scan_objects(s, i + 4, b, true, false, items) == scan_objects(s, i + 5, b, false, false, items));
    assert(scan_objects(s, i + 5, b, false, false, items) == scan_objects(s, i + 6, b, false, false, items));
    assert(scan_objects(s, i + 6, b, false, false, items) == scan_objects(s, i + 7, b, true, false, items));
    assert forall|k: int| i + 7 <= k < i2 implies s[k] != '"' && s[k] != '\\' by {
        assert(s[k] == d[k - (i + 7)]);
        assert(is_digit(d[k - (i + 7)]));
    }
    lemma_scan_plain(s, i + 7, i2, b, true, items);
    assert(scan_objects(s, i2, b, true, false, items) == scan_objects(s, i2 + 1, b, false, false, items));
    assert(scan_objects(s, i2 + 1, b, false, false, items) == scan_objects(s, i2 + 2, b, false, false, items));
    assert(scan_objects(s, i2 + 2, b, false, false, items) == scan_objects(s, i2 + 3, b, true, false, items));
    lemma_scan_plain(s, i2 + 3, i2 + 7, b, true, items);
    assert(scan_objects(s, i2 + 7, b, true, false, items) == scan_objects(s, i2 + 8, b, false, false, items));
    assert(scan_objects(s, i2 + 8, b, false, false, items) == scan_objects(s, i2 + 9, b, false, false, items));
    assert(scan_objects(s, i2 + 9, b, false, false, items) == scan_objects(s, i3, b, true, false, items));
    lemma_scan_escaped(s, i3, t.name, b, items);
    assert(scan_objects(s, i4, b, true, false, items) == scan_objects(s, i4 + 1, b, false, false, items));
    assert(scan_objects(s, i4 + 1, b, false, false, items) == scan_objects(s, i4 + 2, b, false, false, items));
    assert(scan_objects(s, i4 + 2, b, false, false, items) == scan_objects(s, i4 + 3, b, true, false, items));
    lemma_scan_plain(s, i4 + 3, i4 + 7, b, true, items);
    assert(scan_objects(s, i4 + 7, b, true, false, items) == scan_objects(s, i4 + 8, b, false, false, items));
    assert(scan_objects(s, i4 + 8, b, false, false, items) == scan_objects(s, i4 + 9, b, false, false, items));
    assert(scan_objects(s, i4 + 9, b, false, false, items) == scan_objects(s, i4 + 10, b, true, false, items));
    lemma_scan_plain(s, i4 + 10, i4 + 15, b, true, items);
    assert(scan_objects(s, i4 + 15, b, true, false, items) == scan_objects(s, i4 + 16, b, false, false, items));
    assert(scan_objects(s, i4 + 16, b, false, false, items) == scan_objects(s, i4 + 17, None, false, false, items.push((i, i4 + 16))));
}

/// The index ranges of the track objects in `tracks_json(ts)` written at `i`.
pub open spec fn track_spans(ts: Seq<TrackView>, i: int) -> Seq<(int, int)>
    decreases ts.len(),
{
    if ts.len() == 0 {
        Seq::empty()
    } else if ts.len() == 1 {
        seq![(i, i + track_json(ts[0]).len() - 1)]
    } else {
        let a = i + tracks_json(ts.drop_last()).len() + 1;
        track_spans(ts.drop_last(), i).push((a, a + track_json(ts.last()).len() - 1))
    }
}

/// Scanning the written tracks finds exactly their objects.
proof fn lemma_scan_tracks(s: Seq<char>, i: int, ts: Seq<TrackView>, items: Seq<(int, int)>)
    requires
        at(s, i, tracks_json(ts)),
    ensures
        scan_objects(s, i, None, false, false, items) == scan_objects(
            s,
            i + tracks_json(ts).len(),
            None,
            false,
            false,
            items + track_spans(ts, i),
        ),
    decreases ts.len(),
{
    if ts.len() == 0 {
        assert(items + track_spans(ts, i) =~= items);
    } else if ts.len() == 1 {
        lemma_scan_track(s, i, ts[0], items);
        assert(items.push((i, i + track_json(ts[0]).len() - 1)) =~= items + track_spans(ts, i));
    } else {
        let ts0 = ts.drop_last();
        let t = ts.last();
        let j0 = tracks_json(ts0);
        lemma_at_split(s, i, j0 + seq![','], track_json(t));
        lemma_at_split(s, i, j0, seq![',']);
        lemma_scan_tracks(s, i, ts0, items);
        let m = i + j0.len();
        lemma_at_char(s, m, seq![','], 0);
        let items0 = items + track_spans(ts0, i);
        assert(scan_objects(s, m, None, false, false, items0) == scan_objects(s, m + 1, None, false, false, items0));
        lemma_scan_track(s, m + 1, t, items0);
        assert(items0.push((m + 1, m + 1 + track_json(t).len() - 1)) =~= items + track_spans(ts, i));
    }
}

/// A written track object reads back as the track.
#[verifier::spinoff_prover]
#[verifier::rlimit(50)]
proof fn lemma_parse_track(t: TrackView)
    ensures
        parse_track(track_json(t)) == Some(t),
{
    reveal_strlit("{\"id\":\"");
    reveal_strlit("\",\"name\":\"");
    reveal_strlit("\",\"kind\":\"audio\"}");
    reveal_strlit("id");
    reveal_strlit("name");
    let o = track_json(t);
    assert(o.subrange(0, o.len() as int) =~= o);
    lemma_track_pieces(o, 0, t);
    let d = decimal_text(t.id as nat);
    let e = escape_spec(t.name);
    let i2: int = 7 + d.len() as int;
    let i3: int = i2 + 10;
    let i4: int = i3 + e.len();
    let l1 = "{\"id\":\""@;
    let l2 = "\",\"name\":\""@;
    let l3 = "\",\"kind\":\"audio\"}"@;
    lemma_at_chars(o, 0, l1);
    lemma_at_chars(o, 7, d);
    lemma_at_chars(o, i2, l2);
    lemma_at_chars(o, i4, l3);
    lemma_decimal_round_trip(t.id as nat);
    // the id
    let pid = key_pattern("id"@);
    assert(o.subrange(1, 5) =~= pid);
    assert forall|k: int| 0 <= k < 1 implies !occurs_at(o, pid, k) by {
        lemma_mismatch(o, pid, k, 0);
    }
    lemma_key_tail(o, "id"@, 1, 5);
    lemma_skip_space(o, 6, 6);
    assert forall|k: int| 0 <= k < d.len() implies #[trigger] d[k] != '\\' && d[k] != '"' by {
        assert(is_digit(d[k]));
    }
    lemma_escape_plain(d);
    lemma_unescape_escaped(o, 7, d, Seq::empty());
    assert(Seq::<char>::empty() + d =~= d);
    assert(string_field(o, "id"@) == Some(d));
    assert(d[0] != '+') by {
        assert(is_digit(d[0]));
    }
    assert(parse_unsigned(d, u128::MAX as nat) == Some(t.id as nat));
    // the name
    let pname = key_pattern("name"@);
    assert(o.subrange(i2 + 2, i2 + 8) =~= pname);
    assert forall|k: int| 0 <= k < i2 + 2 implies !occurs_at(o, pname, k) by {
        if k == 1 || k == 4 || k == 6 || k == i2 {
            lemma_mismatch(o, pname, k, 1);
        } else {
            lemma_mismatch(o, pname, k, 0);
        }
    }
    lemma_key_tail(o, "name"@, i2 + 2, i2 + 8);
    lemma_skip_space(o, i2 + 9, i2 + 9);
    lemma_unescape_escaped(o, i3, t.name, Seq::empty());
    assert(Seq::<char>::empty() + t.name =~= t.name);
    assert(string_field(o, "name"@) == Some(t.name));
}

/// The written tracks read back as the tracks.
proof fn lemma_parse_tracks(body: Seq<char>, ts: Seq<TrackView>)
    requires
        at(body, 0, tracks_json(ts)),
    ensures
        parse_tracks(body, track_spans(ts, 0)) == Some(ts),
    decreases ts.len(),
{
    if ts.len() == 0 {
        assert(ts =~= Seq::<TrackView>::empty());
    } else {
        let ts0 = ts.drop_last();
        let t = ts.last();
        let spans = track_spans(ts, 0);
        if ts.len() == 1 {
            assert(spans.drop_last() =~= Seq::<(int, int)>::empty());
            assert(ts0 =~= Seq::<TrackView>::empty());
            assert(body.subrange(0, track_json(t).len() as int) == track_json(t));
        } else {
            let j0 = tracks_json(ts0);
            lemma_at_split(body, 0, j0 + seq![','], track_json(t));
            lemma_at_split(body, 0, j0, seq![',']);
            lemma_parse_tracks(body, ts0);
            assert(spans.drop_last() == track_spans(ts0, 0));
        }
        lemma_parse_track(t);
        assert(ts0.push(t) =~= ts);
    }
}

spec fn head() -> Seq<char> {
    "{\n  \"schemaVersion\": 1,\n  \"projectId\": \""@
}

spec fn revision_head() -> Seq<char> {
    "\",\n  \"revision\": "@
}

spec fn tempo_head() -> Seq<char> {
    ",\n  \"tempo\": "@
}

spec fn tracks_head() -> Seq<char> {
    ",\n  \"tracks\": ["@
}

spec fn tail() -> Seq<char> {
    "]\n}\n"@
}

/// `s` is a project file with id text `e`, revision digits `d`, tempo text
/// `t` and track objects `j`.
#[verifier::opaque]
spec fn laid_out(s: Seq<char>, e: Seq<char>, d: Seq<char>, t: Seq<char>, j: Seq<char>) -> bool {
    let ob: int = 40int + e.len();
    let od: int = ob + 17;
    let oc: int = od + d.len();
    let ot: int = oc + 13;
    let odd: int = ot + t.len();
    let oj: int = odd + 15;
    let oz: int = oj + j.len();
    &&& at(s, 0, head())
    &&& at(s, 40, e)
    &&& at(s, ob, revision_head())
    &&& at(s, od, d)
    &&& at(s, oc, tempo_head())
    &&& at(s, ot, t)
    &&& at(s, odd, tracks_head())
    &&& at(s, oj, j)
    &&& at(s, oz, tail())
    &&& s.len() == oz + 4
    &&& quotes_escaped(e)
    &&& d.len() > 0
    &&& all_digits(d)
    &&& forall|i: int| 0 <= i < t.len() ==> is_number_char(#[trigger] t[i])
}

proof fn lemma_reveal_pieces()
    ensures
        head().len() == 40,
        revision_head().len() == 17,
        tempo_head().len() == 13,
        tracks_head().len() == 15,
        tail().len() == 4,
{
    reveal_strlit("{\n  \"schemaVersion\": 1,\n  \"projectId\": \"");
    reveal_strlit("\",\n  \"revision\": ");
    reveal_strlit(",\n  \"tempo\": ");
    reveal_strlit(",\n  \"tracks\": [");
    reveal_strlit("]\n}\n");
}

/// The characters of all pieces, by position in `s`.
proof fn lemma_layout_chars(s: Seq<char>, e: Seq<char>, d: Seq<char>, t: Seq<char>, j: Seq<char>)
    requires
        laid_out(s, e, d, t, j),
    ensures
        ({
            let ob: int = 40int + e.len();
            let od: int = ob + 17;
            let oc: int = od + d.len();
            let ot: int = oc + 13;
            let odd: int = ot + t.len();
            let oj: int = odd + 15;
            let oz: int = oj + j.len();
            &&& forall|k: int| 0 <= k < 40 ==> #[trigger] s[k] == head()[k]
            &&& forall|k: int| 40 <= k < ob ==> #[trigger] s[k] == e[k - 40]
            &&& forall|k: int| ob <= k < od ==> #[trigger] s[k] == revision_head()[k - ob]
            &&& forall|k: int| od <= k < oc ==> #[trigger] s[k] == d[k - od]
            &&& forall|k: int| oc <= k < ot ==> #[trigger] s[k] == tempo_head()[k - oc]
            &&& forall|k: int| ot <= k < odd ==> #[trigger] s[k] == t[k - ot]
            &&& forall|k: int| odd <= k < oj ==> #[trigger] s[k] == tracks_head()[k - odd]
            &&& forall|k: int| oz <= k < oz + 4 ==> #[trigger] s[k] == tail()[k - oz]
        }),
{
    reveal(laid_out);
    lemma_reveal_pieces();
    let ob: int = 40int + e.len();
    let od: int = ob + 17;
    let oc: int = od + d.len();
    let ot: int = oc + 13;
    let odd: int = ot + t.len();
    let oj: int = odd + 15;
    let oz: int = oj + j.len();
    lemma_at_chars(s, 0, head());
    lemma_at_chars(s, 40, e);
    lemma_at_chars(s, ob, revision_head());
    lemma_at_chars(s, od, d);
    lemma_at_chars(s, oc, tempo_head());
    lemma_at_chars(s, ot, t);
    lemma_at_chars(s, odd, tracks_head());
    lemma_at_chars(s, oz, tail());
}

/// A written project file is laid out in its pieces.
proof fn lemma_project_layout(p: ProjectView, t: Seq<char>)
    requires
        forall|i: int| 0 <= i < t.len() ==> is_number_char(#[trigger] t[i]),
    ensures
        laid_out(
            project_json(p, t),
            escape_spec(p.id),
            decimal_text(p.revision as nat),
            t,
            tracks_json(p.tracks),
        ),
{
    reveal(laid_out);
    lemma_reveal_pieces();
    let s = project_json(p, t);
    let e = escape_spec(p.id);
    let d = decimal_text(p.revision as nat);
    let j = tracks_json(p.tracks);
    assert(s == head() + e + revision_head() + d + tempo_head() + t + tracks_head() + j + tail());
    assert(s.subrange(0, s.len() as int) =~= s);
    lemma_at_split(s, 0, head() + e + revision_head() + d + tempo_head() + t + tracks_head() + j, tail());
    lemma_at_split(s, 0, head() + e + revision_head() + d + tempo_head() + t + tracks_head(), j);
    lemma_at_split(s, 0, head() + e + revision_head() + d + tempo_head() + t, tracks_head());
    lemma_at_split(s, 0, head() + e + revision_head() + d + tempo_head(), t);
    lemma_at_split(s, 0, head() + e + revision_head() + d, tempo_head());
    lemma_at_split(s, 0, head() + e + revision_head(), d);
    lemma_at_split(s, 0, head() + e, revision_head());
    lemma_at_split(s, 0, head(), e);
    lemma_escape_quotes(p.id);
    lemma_decimal_round_trip(p.revision as nat);
}

/// A laid-out project file has schema version 1.
proof fn lemma_read_version(s: Seq<char>, e: Seq<char>, d: Seq<char>, t: Seq<char>, j: Seq<char>)
    requires
        laid_out(s, e, d, t, j),
    ensures
        u64_field(s, "schemaVersion"@) == Some(1u64),
{
    reveal(laid_out);
    reveal_strlit("{\n  \"schemaVersion\": 1,\n  \"projectId\": \"");
    reveal_strlit("schemaVersion");
    lemma_layout_chars(s, e, d, t, j);
    let key = "schemaVersion"@;
    let pat = key_pattern(key);
    assert(s.subrange(4, 19) =~= pat);
    assert forall|k: int| 0 <= k < 4 implies !occurs_at(s, pat, k) by {
        lemma_mismatch(s, pat, k, 0);
    }
    lemma_key_tail(s, key, 4, 19);
    lemma_skip_space(s, 20, 21);
    lemma_digits_end(s, 21, 22);
    let v = s.subrange(21, 22);
    assert(v =~= seq!['1']);
    assert(v.drop_last() =~= Seq::<char>::empty());
    assert(decimal_value(Seq::<char>::empty()) == 0);
    assert(digit_value(v.last()) == 1);
    assert(decimal_value(v) == 1);
}

/// A laid-out project file reads back its project id.
proof fn lemma_read_id(s: Seq<char>, e: Seq<char>, d: Seq<char>, t: Seq<char>, j: Seq<char>, x: Seq<char>)
    requires
        laid_out(s, e, d, t, j),
        e == escape_spec(x),
    ensures
        string_field(s, "projectId"@) == Some(x),
{
    reveal(laid_out);
    reveal_strlit("{\n  \"schemaVersion\": 1,\n  \"projectId\": \"");
    reveal_strlit("\",\n  \"revision\": ");
    reveal_strlit("projectId");
    lemma_layout_chars(s, e, d, t, j);
    let key = "projectId"@;
    let pat = key_pattern(key);
    assert(s.subrange(26, 37) =~= pat);
    assert forall|k: int| 0 <= k < 26 implies !occurs_at(s, pat, k) by {
        if k == 4 || k == 18 {
            lemma_mismatch(s, pat, k, 1);
        } else {
            lemma_mismatch(s, pat, k, 0);
        }
    }
    lemma_key_tail(s, key, 26, 37);
    lemma_skip_space(s, 38, 39);
    lemma_unescape_escaped(s, 40, x, Seq::empty());
    let ob: int = 40int + e.len();
    assert(s[ob] == '"');
    assert(Seq::<char>::empty() + x =~= x);
}

/// A laid-out project file reads back its revision, whatever its id.
#[verifier::spinoff_prover]
proof fn lemma_read_revision(s: Seq<char>, e: Seq<char>, d: Seq<char>, t: Seq<char>, j: Seq<char>, r: u64)
    requires
        laid_out(s, e, d, t, j),
        d == decimal_text(r as nat),
    ensures
        u64_field(s, "revision"@) == Some(r),
{
    reveal(laid_out);
    reveal_strlit("{\n  \"schemaVersion\": 1,\n  \"projectId\": \"");
    reveal_strlit("\",\n  \"revision\": ");
    reveal_strlit(",\n  \"tempo\": ");
    reveal_strlit("revision");
    lemma_layout_chars(s, e, d, t, j);
    let key = "revision"@;
    let pat = key_pattern(key);
    let ob: int = 40int + e.len();
    let od: int = ob + 17;
    let oc: int = od + d.len();
    assert(s.subrange(ob + 5, ob + 15) =~= pat);
    assert forall|k: int| 0 <= k < 39 implies !occurs_at(s, pat, k) by {
        if k == 4 || k == 18 || k == 26 || k == 36 {
            lemma_mismatch(s, pat, k, 1);
        } else {
            lemma_mismatch(s, pat, k, 0);
        }
    }
    assert forall|k: int| ob <= k < ob + 5 implies !occurs_at(s, pat, k) by {
        if k == ob {
            lemma_mismatch(s, pat, k, 1);
        } else {
            lemma_mismatch(s, pat, k, 0);
        }
    }
    let p = ob - 9;
    assert forall|k: int| 39 <= k < ob && k != p implies !occurs_at(s, pat, k) by {
        if occurs_at(s, pat, k) {
            lemma_key_in_id(s, e, d, t, j, key, k);
        }
    }
    if 39 <= p && occurs_at(s, pat, p) {
        assert forall|k: int| p <= k < ob + 15 implies s[k] != ':' by {
            if k < ob {
                assert(s.subrange(p, p + 10)[k - p] == pat[k - p]);
            }
        }
        lemma_key_tail(s, key, p, ob + 15);
    } else {
        lemma_key_tail(s, key, ob + 5, ob + 15);
    }
    lemma_skip_space(s, ob + 16, od);
    lemma_digits_end(s, od, oc);
    assert(s.subrange(od, oc) =~= d);
    lemma_decimal_round_trip(r as nat);
    assert(is_digit(d[0]));
}

/// A laid-out project file reads back its tempo text, unless the written id
/// ends with the quoted key: then the reader takes the revision digits for
/// the tempo text.
#[verifier::spinoff_prover]
proof fn lemma_read_tempo(s: Seq<char>, e: Seq<char>, d: Seq<char>, t: Seq<char>, j: Seq<char>)
    requires
        laid_out(s, e, d, t, j),
    ensures
        ({
            let q = 40 + e.len() - 6;
            if 39 <= q && occurs_at(s, key_pattern("tempo"@), q) {
                &&& number_field(s, "tempo"@) == Some(d)
                &&& ends_with(seq!['"'] + e, seq!['"'] + "tempo"@)
            } else {
                number_field(s, "tempo"@) == Some(t)
            }
        }),
{
    reveal(laid_out);
    reveal_strlit("{\n  \"schemaVersion\": 1,\n  \"projectId\": \"");
    reveal_strlit("\",\n  \"revision\": ");
    reveal_strlit(",\n  \"tempo\": ");
    reveal_strlit(",\n  \"tracks\": [");
    reveal_strlit("tempo");
    lemma_layout_chars(s, e, d, t, j);
    let key = "tempo"@;
    let pat = key_pattern(key);
    let ob: int = 40int + e.len();
    let od: int = ob + 17;
    let oc: int = od + d.len();
    let ot: int = oc + 13;
    let odd: int = ot + t.len();
    let q = ob - 6;
    assert(s.subrange(oc + 4, oc + 11) =~= pat);
    assert forall|k: int| 0 <= k < 39 implies !occurs_at(s, pat, k) by {
        if k == 4 || k == 18 || k == 26 || k == 36 {
            lemma_mismatch(s, pat, k, 1);
        } else {
            lemma_mismatch(s, pat, k, 0);
        }
    }
    assert forall|k: int| 39 <= k < ob && k != q implies !occurs_at(s, pat, k) by {
        if occurs_at(s, pat, k) {
            lemma_key_in_id(s, e, d, t, j, key, k);
        }
    }
    if 39 <= q && occurs_at(s, pat, q) {
        lemma_key_in_id(s, e, d, t, j, key, q);
        assert forall|k: int| q <= k < ob + 15 implies s[k] != ':' by {
            if k < ob {
                assert(s.subrange(q, q + 7)[k - q] == pat[k - q]);
            }
        }
        lemma_key_tail(s, key, q, ob + 15);
        lemma_skip_space(s, ob + 16, od);
        assert forall|k: int| od <= k < oc implies is_number_char(#[trigger] s[k]) by {
            assert(is_digit(d[k - od]));
        }
        lemma_number_end(s, od, oc);
        assert(s.subrange(od, oc) =~= d);
    } else {
        assert forall|k: int| ob <= k < od implies !occurs_at(s, pat, k) by {
            if k == ob || k == ob + 5 || k == ob + 14 {
                lemma_mismatch(s, pat, k, 1);
            } else {
                lemma_mismatch(s, pat, k, 0);
            }
        }
        assert forall|k: int| od <= k < oc + 4 implies !occurs_at(s, pat, k) by {
            if k < oc {
                assert(is_digit(d[k - od]));
            }
            lemma_mismatch(s, pat, k, 0);
        }
        lemma_key_tail(s, key, oc + 4, oc + 11);
        lemma_skip_space(s, oc + 12, ot);
        lemma_number_end(s, ot, odd);
        assert(s.subrange(ot, odd) =~= t);
    }
}

/// A laid-out project file reads back the text of its track array, unless
/// its id text is the key itself.
#[verifier::spinoff_prover]
proof fn lemma_read_tracks(s: Seq<char>, e: Seq<char>, d: Seq<char>, t: Seq<char>, j: Seq<char>)
    requires
        laid_out(s, e, d, t, j),
        !ends_with(seq!['"'] + e, seq!['"'] + "tracks"@),
    ensures
        array_field(s, "tracks"@) == Some(j),
{
    reveal(laid_out);
    reveal_strlit("{\n  \"schemaVersion\": 1,\n  \"projectId\": \"");
    reveal_strlit("\",\n  \"revision\": ");
    reveal_strlit(",\n  \"tempo\": ");
    reveal_strlit(",\n  \"tracks\": [");
    reveal_strlit("]\n}\n");
    reveal_strlit("tracks");
    lemma_layout_chars(s, e, d, t, j);
    let key = "tracks"@;
    let pat = key_pattern(key);
    let ob: int = 40int + e.len();
    let od: int = ob + 17;
    let oc: int = od + d.len();
    let ot: int = oc + 13;
    let odd: int = ot + t.len();
    let oj: int = odd + 15;
    let oz: int = oj + j.len();
    assert(s.subrange(odd + 4, odd + 12) =~= pat);
    assert forall|k: int| 0 <= k < 39 implies !occurs_at(s, pat, k) by {
        if k == 4 || k == 18 || k == 26 || k == 36 {
            lemma_mismatch(s, pat, k, 1);
        } else {
            lemma_mismatch(s, pat, k, 0);
        }
    }
    assert forall|k: int| 39 <= k < ob implies !occurs_at(s, pat, k) by {
        if occurs_at(s, pat, k) {
            lemma_key_in_id(s, e, d, t, j, key, k);
        }
    }
    assert forall|k: int| ob <= k < od implies !occurs_at(s, pat, k) by {
        if k == ob || k == ob + 5 || k == ob + 14 {
            lemma_mismatch(s, pat, k, 1);
        } else {
            lemma_mismatch(s, pat, k, 0);
        }
    }
    assert forall|k: int| od <= k < ot implies !occurs_at(s, pat, k) by {
        if k < oc {
            assert(is_digit(d[k - od]));
            lemma_mismatch(s, pat, k, 0);
        } else if k == oc + 4 {
            lemma_mismatch(s, pat, k, 2);
        } else if k == oc + 10 {
            lemma_mismatch(s, pat, k, 1);
        } else {
            lemma_mismatch(s, pat, k, 0);
        }
    }
    assert forall|k: int| ot <= k < odd + 4 implies !occurs_at(s, pat, k) by {
        if k < odd {
            assert(is_number_char(t[k - ot]));
        }
        lemma_mismatch(s, pat, k, 0);
    }
    lemma_key_tail(s, key, odd + 4, odd + 12);
    lemma_skip_space(s, odd + 13, odd + 14);
    assert(rfind_char(s, ']', oj, oz + 1) == Some(oz));
    assert(rfind_char(s, ']', oj, oz + 2) == Some(oz));
    assert(rfind_char(s, ']', oj, oz + 3) == Some(oz));
    assert(rfind_char(s, ']', oj, oz + 4) == Some(oz));
    assert(s.subrange(oj, oz) =~= j);
}

/// A quoted key that occurs at or after the quote that opens the written id
/// ends exactly where the id ends.
proof fn lemma_key_in_id(
    s: Seq<char>,
    e: Seq<char>,
    d: Seq<char>,
    t: Seq<char>,
    j: Seq<char>,
    key: Seq<char>,
    k: int,
)
    requires
        laid_out(s, e, d, t, j),
        key.len() >= 1,
        forall|i: int| 0 <= i < key.len() ==> #[trigger] key[i] != '"' && key[i] != '\\',
        39 <= k < 40 + e.len(),
        occurs_at(s, key_pattern(key), k),
    ensures
        k + key.len() + 1 == 40 + e.len(),
        ends_with(seq!['"'] + e, seq!['"'] + key),
{
    reveal(laid_out);
    reveal_strlit("{\n  \"schemaVersion\": 1,\n  \"projectId\": \"");
    reveal_strlit("\",\n  \"revision\": ");
    lemma_layout_chars(s, e, d, t, j);
    let pat = key_pattern(key);
    let n: int = key.len() as int;
    let ob: int = 40int + e.len();
    let q = k + n + 1;
    let w = s.subrange(k, k + n + 2);
    assert(w == pat);
    assert(s[q] == '"') by {
        assert(w[n + 1] == pat[n + 1]);
    }
    if q < ob {
        assert(e[q - 40] == '"');
        assert(s[q - 1] == key[n - 1]) by {
            assert(w[n] == pat[n]);
        }
        assert(s[q - 1] == e[q - 41]);
        assert(false);
    } else if q > ob {
        let m = ob - k;
        assert(s[ob] == key[m - 1]) by {
            assert(w[m] == pat[m]);
        }
        assert(false);
    }
    let u = seq!['"'] + e;
    let sk = seq!['"'] + key;
    assert forall|i: int| 0 <= i < n + 1 implies u[k - 39 + i] == sk[i] by {
        assert(w[i] == pat[i]);
        if k + i > 39 {
            assert(s[k + i] == e[k + i - 40]);
        }
    }
    assert(u.subrange(u.len() - sk.len(), u.len() as int) =~= sk);
}

/// Reading back a written project file gives back the project's id,
/// revision and tracks and the tempo text it was written with, provided the
/// tempo text is made of digits, `.` and `-` (as a tempo in range is
/// written). An id that is `tempo` or `tracks`, or ends with a `"` followed
/// by one of them, puts that quoted key inside the file before the real one,
/// where the reader finds it first: the track array is then not found, and
/// the revision digits are read as the tempo text, which is only right when
/// the tempo text is those digits.
#[verifier::spinoff_prover]
pub proof fn lemma_read_back_written(p: ProjectView, t: Seq<char>)
    requires
        names_key(p.id, "tempo"@) ==> t == decimal_text(p.revision as nat),
        !names_key(p.id, "tracks"@),
        forall|i: int| 0 <= i < t.len() ==> is_number_char(#[trigger] t[i]),
    ensures
        parse_json_spec(project_json(p, t)) == Ok::<RecordView, ProjectError>(
            RecordView { id: p.id, revision: p.revision, tempo_text: t, tracks: p.tracks },
        ),
{
    reveal_strlit("tempo");
    reveal_strlit("tracks");
    lemma_project_layout(p, t);
    let s = project_json(p, t);
    let e = escape_spec(p.id);
    let d = decimal_text(p.revision as nat);
    let j = tracks_json(p.tracks);
    lemma_read_version(s, e, d, t, j);
    lemma_read_id(s, e, d, t, j, p.id);
    lemma_read_revision(s, e, d, t, j, p.revision);
    lemma_read_tempo(s, e, d, t, j);
    if ends_with(seq!['"'] + e, seq!['"'] + "tempo"@) {
        lemma_id_suffix(p.id, "tempo"@);
    }
    if ends_with(seq!['"'] + e, seq!['"'] + "tracks"@) {
        lemma_id_suffix(p.id, "tracks"@);
    }
    lemma_read_tracks(s, e, d, t, j);
    assert(j.subrange(0, j.len() as int) =~= j);
    let spans = track_spans(p.tracks, 0);
    lemma_scan_tracks(j, 0, p.tracks, Seq::empty());
    assert(Seq::<(int, int)>::empty() + spans =~= spans);
    assert(object_items(j) == Some(spans));
    lemma_parse_tracks(j, p.tracks);
}

/// A project written with the text of its tempo, which lies in range, and
/// read back with that tempo is the same project (under the conditions of
/// `lemma_read_back_written`).
pub proof fn lemma_project_round_trip(p: ProjectView, t: Seq<char>)
    requires
        tempo_in_range(p.tempo),
        names_key(p.id, "tempo"@) ==> t == decimal_text(p.revision as nat),
        !names_key(p.id, "tracks"@),
        forall|i: int| 0 <= i < t.len() ==> is_number_char(#[trigger] t[i]),
    ensures
        parse_json_spec(project_json(p, t)) matches Ok(r) && from_record_spec(r, Some(p.tempo))
            == Ok::<ProjectView, ProjectError>(p),
{
    lemma_read_back_written(p, t);
}

} // verus!

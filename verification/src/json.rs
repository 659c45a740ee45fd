//! The project file: a strict subset of JSON, written and read over the
//! characters of the text.
use vstd::prelude::*;
use vstd::string::StringExecFns;

use crate::project::{tempo_in_range, MAX_TEMPO_BITS, MIN_TEMPO_BITS, EntityId, Project, ProjectView, Track, TrackView};
use crate::text::{
    all_digits, char_is_digit, char_is_space, chars_of, decimal_value, digit_value, is_digit,
    is_space, push_char, string_of,
};

verus! {

/// Why a project file was refused.
#[derive(Clone, Copy, Debug, Eq, PartialEq, Structural)]
pub enum ProjectError {
    InvalidFormat,
    UnsupportedSchema,
}

#[verifier::external_type_specification]
#[verifier::external_body]
pub struct ExIoError(std::io::Error);

/// Why loading a project from disk failed.
#[derive(Debug)]
pub enum LoadError {
    /// The file could not be read.
    Io(std::io::Error),
    /// The file is not a valid project.
    Project(ProjectError),
}

/// Whether `pat` occurs in `s` starting at index `i`.
pub open spec fn occurs_at(s: Seq<char>, pat: Seq<char>, i: int) -> bool {
    0 <= i && i + pat.len() <= s.len() && s.subrange(i, i + pat.len()) == pat
}

/// The first index at or after `i` where `pat` occurs in `s`.
pub open spec fn find_from(s: Seq<char>, pat: Seq<char>, i: int) -> Option<int>
    decreases s.len() + 1 - i,
{
    if i < 0 || i + pat.len() > s.len() {
        None
    } else if occurs_at(s, pat, i) {
        Some(i)
    } else {
        find_from(s, pat, i + 1)
    }
}

/// The first index at or after `i` that holds the character `c`.
pub open spec fn find_char_from(s: Seq<char>, c: char, i: int) -> Option<int>
    decreases s.len() - i,
{
    if i < 0 || i >= s.len() {
        None
    } else if s[i] == c {
        Some(i)
    } else {
        find_char_from(s, c, i + 1)
    }
}

/// The last index in `[lo, hi)` that holds the character `c`.
pub open spec fn rfind_char(s: Seq<char>, c: char, lo: int, hi: int) -> Option<int>
    decreases hi - lo,
{
    if hi <= lo || hi > s.len() || lo < 0 {
        None
    } else if s[hi - 1] == c {
        Some(hi - 1)
    } else {
        rfind_char(s, c, lo, hi - 1)
    }
}

/// The index of the first character at or after `i` that is not white space.
pub open spec fn skip_space(s: Seq<char>, i: int) -> int
    decreases s.len() - i,
{
    if 0 <= i < s.len() && is_space(s[i]) {
        skip_space(s, i + 1)
    } else {
        i
    }
}

/// The end of the run of ASCII digits that starts at `i`.
pub open spec fn digits_end(s: Seq<char>, i: int) -> int
    decreases s.len() - i,
{
    if 0 <= i < s.len() && is_digit(s[i]) {
        digits_end(s, i + 1)
    } else {
        i
    }
}

/// Whether `c` may appear in a number: an ASCII digit, `.` or `-`.
pub open spec fn is_number_char(c: char) -> bool {
    is_digit(c) || c == '.' || c == '-'
}

/// The end of the run of number characters that starts at `i`.
pub open spec fn number_end(s: Seq<char>, i: int) -> int
    decreases s.len() - i,
{
    if 0 <= i < s.len() && is_number_char(s[i]) {
        number_end(s, i + 1)
    } else {
        i
    }
}

/// How `str::parse` reads an unsigned integer no larger than `max`: an
/// optional `+` followed by at least one ASCII digit.
pub open spec fn parse_unsigned(s: Seq<char>, max: nat) -> Option<nat> {
    let d = if s.len() > 0 && s[0] == '+' {
        s.drop_first()
    } else {
        s
    };
    if d.len() > 0 && all_digits(d) && decimal_value(d) <= max {
        Some(decimal_value(d))
    } else {
        None
    }
}

/// The key written between double quotes.
pub open spec fn key_pattern(key: Seq<char>) -> Seq<char> {
    seq!['"'] + key + seq!['"']
}

/// Where the value of `key` starts: just after the first `:` that follows
/// the first occurrence of the quoted key.
pub open spec fn key_tail(s: Seq<char>, key: Seq<char>) -> Option<int> {
    match find_from(s, key_pattern(key), 0) {
        None => None,
        Some(i) => match find_char_from(s, ':', i) {
            None => None,
            Some(j) => Some(j + 1),
        },
    }
}

/// The unsigned integer value of `key`: the ASCII digits after any white space.
pub open spec fn u64_field(s: Seq<char>, key: Seq<char>) -> Option<u64> {
    match key_tail(s, key) {
        None => None,
        Some(t) => {
            let a = skip_space(s, t);
            match parse_unsigned(s.subrange(a, digits_end(s, a)), u64::MAX as nat) {
                None => None,
                Some(v) => Some(v as u64),
            }
        },
    }
}

/// The number text of `key`: the run of digits, `.` and `-` after any white space.
pub open spec fn number_field(s: Seq<char>, key: Seq<char>) -> Option<Seq<char>> {
    match key_tail(s, key) {
        None => None,
        Some(t) => {
            let a = skip_space(s, t);
            Some(s.subrange(a, number_end(s, a)))
        },
    }
}

/// Reads the body of a string from index `i` on: `\\` and `\"` stand for `\`
/// and `"`, any other escape is refused, and an unescaped `"` ends the string.
pub open spec fn unescape(s: Seq<char>, i: int, escaped: bool, acc: Seq<char>) -> Option<Seq<char>>
    decreases s.len() - i,
{
    if i < 0 || i >= s.len() {
        None
    } else if escaped {
        if s[i] == '\\' || s[i] == '"' {
            unescape(s, i + 1, false, acc.push(s[i]))
        } else {
            None
        }
    } else if s[i] == '\\' {
        unescape(s, i + 1, true, acc)
    } else if s[i] == '"' {
        Some(acc)
    } else {
        unescape(s, i + 1, false, acc.push(s[i]))
    }
}

/// The string value of `key`.
pub open spec fn string_field(s: Seq<char>, key: Seq<char>) -> Option<Seq<char>> {
    match key_tail(s, key) {
        None => None,
        Some(t) => {
            let a = skip_space(s, t);
            if a < s.len() && s[a] == '"' {
                unescape(s, a + 1, false, Seq::empty())
            } else {
                None
            }
        },
    }
}

/// The text between the `[` that opens the array value of `key` and the
/// last `]` of the input.
pub open spec fn array_field(s: Seq<char>, key: Seq<char>) -> Option<Seq<char>> {
    match key_tail(s, key) {
        None => None,
        Some(t) => {
            let a = skip_space(s, t);
            if a < s.len() && s[a] == '[' {
                match rfind_char(s, ']', a + 1, s.len() as int) {
                    None => None,
                    Some(r) => Some(s.subrange(a + 1, r)),
                }
            } else {
                None
            }
        },
    }
}

/// Splits `s` from index `i` on into top-level `{...}` objects, each given
/// by its first and last index. Braces inside strings do not count; nested
/// objects, a `}` without `{`, and an unclosed object or string are refused.
pub open spec fn scan_objects(
    s: Seq<char>,
    i: int,
    start: Option<int>,
    in_string: bool,
    escaped: bool,
    items: Seq<(int, int)>,
) -> Option<Seq<(int, int)>>
    decreases s.len() - i,
{
    if i < 0 || i >= s.len() {
        if start is Some || in_string {
            None
        } else {
            Some(items)
        }
    } else if escaped {
        scan_objects(s, i + 1, start, in_string, false, items)
    } else if s[i] == '\\' && in_string {
        scan_objects(s, i + 1, start, in_string, true, items)
    } else if s[i] == '"' {
        scan_objects(s, i + 1, start, !in_string, false, items)
    } else if !in_string && s[i] == '{' {
        if start is Some {
            None
        } else {
            scan_objects(s, i + 1, Some(i), in_string, false, items)
        }
    } else if !in_string && s[i] == '}' {
        match start {
            None => None,
            Some(b) => scan_objects(s, i + 1, None, in_string, false, items.push((b, i))),
        }
    } else {
        scan_objects(s, i + 1, start, in_string, false, items)
    }
}

/// The top-level objects of `s`, as inclusive index ranges.
pub open spec fn object_items(s: Seq<char>) -> Option<Seq<(int, int)>> {
    scan_objects(s, 0, None, false, false, Seq::empty())
}

/// Whether `pat` occurs in `s` at index `i`.
fn occurs(s: &[char], pat: &[char], i: usize) -> (r: bool)
    requires
        i + pat@.len() <= s@.len(),
    ensures
        r == occurs_at(s@, pat@, i as int),
{
    let n = s.len();
    let mut j: usize = 0;
    while j < pat.len()
        invariant
            n == s@.len(),
            j <= pat@.len(),
            i + pat@.len() <= s@.len(),
            forall|k: int| 0 <= k < j ==> s@[i + k] == pat@[k],
        decreases pat.len() - j,
    {
        if s[i + j] != pat[j] {
            assert(s@.subrange(i as int, i + pat@.len())[j as int] != pat@[j as int]);
            return false;
        }
        j += 1;
    }
    assert(s@.subrange(i as int, i + pat@.len()) =~= pat@);
    true
}

/// The first index at or after `from` where `pat` occurs in `s`.
fn find_pattern(s: &[char], pat: &[char], from: usize) -> (r: Option<usize>)
    ensures
        match find_from(s@, pat@, from as int) {
            Some(k) => r matches Some(i) && i == k,
            None => r is None,
        },
{
    let n = s.len();
    let mut i = from;
    while i <= n && pat.len() <= n - i
        invariant
            n == s@.len(),
            from <= i,
            find_from(s@, pat@, from as int) == find_from(s@, pat@, i as int),
        decreases s.len() + 1 - i,
    {
        if occurs(s, pat, i) {
            return Some(i);
        }
        assert(pat@.len() > 0) by {
            if pat@.len() == 0 {
                assert(s@.subrange(i as int, i as int) =~= pat@);
            }
        }
        i += 1;
    }
    None
}

/// The first index at or after `from` that holds `c`.
fn find_char(s: &[char], c: char, from: usize) -> (r: Option<usize>)
    ensures
        match find_char_from(s@, c, from as int) {
            Some(k) => r matches Some(i) && i == k,
            None => r is None,
        },
{
    let n = s.len();
    let mut i = from;
    while i < n
        invariant
            n == s@.len(),
            from <= i,
            find_char_from(s@, c, from as int) == find_char_from(s@, c, i as int),
        decreases n - i,
    {
        if s[i] == c {
            return Some(i);
        }
        i += 1;
    }
    None
}

/// The last index in `[lo, hi)` that holds `c`.
fn rfind(s: &[char], c: char, lo: usize, hi: usize) -> (r: Option<usize>)
    requires
        hi <= s@.len(),
    ensures
        match rfind_char(s@, c, lo as int, hi as int) {
            Some(k) => r matches Some(i) && i == k,
            None => r is None,
        },
{
    let mut j = hi;
    while j > lo
        invariant
            lo <= j <= hi <= s@.len() || (j == hi && hi <= lo),
            hi <= s@.len(),
            rfind_char(s@, c, lo as int, hi as int) == rfind_char(s@, c, lo as int, j as int),
        decreases j,
    {
        if s[j - 1] == c {
            return Some(j - 1);
        }
        j -= 1;
    }
    None
}

/// Skips white space from `from` on.
fn skip_spaces(s: &[char], from: usize) -> (r: usize)
    requires
        from <= s@.len(),
    ensures
        r == skip_space(s@, from as int),
        from <= r <= s@.len(),
{
    let n = s.len();
    let mut i = from;
    while i < n && char_is_space(s[i])
        invariant
            n == s@.len(),
            from <= i <= n,
            skip_space(s@, from as int) == skip_space(s@, i as int),
        decreases n - i,
    {
        i += 1;
    }
    i
}

/// The end of the run of ASCII digits that starts at `from`.
fn skip_digits(s: &[char], from: usize) -> (r: usize)
    requires
        from <= s@.len(),
    ensures
        r == digits_end(s@, from as int),
        from <= r <= s@.len(),
        forall|k: int| from <= k < r ==> is_digit(#[trigger] s@[k]),
{
    let n = s.len();
    let mut i = from;
    while i < n && char_is_digit(s[i])
        invariant
            n == s@.len(),
            from <= i <= n,
            digits_end(s@, from as int) == digits_end(s@, i as int),
            forall|k: int| from <= k < i ==> is_digit(#[trigger] s@[k]),
        decreases n - i,
    {
        i += 1;
    }
    i
}

/// The end of the run of number characters that starts at `from`.
fn skip_number(s: &[char], from: usize) -> (r: usize)
    requires
        from <= s@.len(),
    ensures
        r == number_end(s@, from as int),
        from <= r <= s@.len(),
{
    let n = s.len();
    let mut i = from;
    while i < n && (char_is_digit(s[i]) || s[i] == '.' || s[i] == '-')
        invariant
            n == s@.len(),
            from <= i <= n,
            number_end(s@, from as int) == number_end(s@, i as int),
        decreases n - i,
    {
        i += 1;
    }
    i
}

/// A prefix of a digit sequence never denotes more than the whole sequence.
pub proof fn lemma_decimal_prefix(s: Seq<char>, k: int)
    requires
        0 <= k <= s.len(),
    ensures
        decimal_value(s.take(k)) <= decimal_value(s),
    decreases s.len(),
{
    if k < s.len() {
        lemma_decimal_prefix(s.drop_last(), k);
        assert(s.drop_last().take(k) =~= s.take(k));
    } else {
        assert(s.take(k) =~= s);
    }
}

/// Reads an unsigned integer from `s[lo..hi]` as `str::parse::<u128>` does.
pub fn parse_u128(s: &[char], lo: usize, hi: usize) -> (r: Option<u128>)
    requires
        lo <= hi <= s@.len(),
    ensures
        match parse_unsigned(s@.subrange(lo as int, hi as int), u128::MAX as nat) {
            Some(v) => r == Some(v as u128),
            None => r is None,
        },
{
    let ghost t = s@.subrange(lo as int, hi as int);
    let mut i = lo;
    if i < hi && s[i] == '+' {
        i += 1;
    }
    let start = i;
    let ghost d = s@.subrange(start as int, hi as int);
    assert(d =~= (if t.len() > 0 && t[0] == '+' { t.drop_first() } else { t }));
    if start == hi {
        return None;
    }
    let mut v: u128 = 0;
    while i < hi
        invariant
            lo <= start <= i <= hi <= s@.len(),
            t == s@.subrange(lo as int, hi as int),
            d == s@.subrange(start as int, hi as int),
            d == (if t.len() > 0 && t[0] == '+' { t.drop_first() } else { t }),
            d.len() > 0,
            d.take(i - start) == s@.subrange(start as int, i as int),
            all_digits(s@.subrange(start as int, i as int)),
            v == decimal_value(s@.subrange(start as int, i as int)),
        decreases hi - i,
    {
        let c = s[i];
        assert(d[i - start] == c);
        if !char_is_digit(c) {
            assert(!is_digit(d[i - start]));
            return None;
        }
        let digit = (c as u32 - '0' as u32) as u128;
        let ghost next = s@.subrange(start as int, i + 1);
        assert(next.drop_last() =~= s@.subrange(start as int, i as int));
        assert(d.take(i + 1 - start) =~= next);
        proof {
            lemma_decimal_prefix(d, i + 1 - start);
        }
        let tens = match v.checked_mul(10) {
            Some(x) => x,
            None => return None,
        };
        v = match tens.checked_add(digit) {
            Some(x) => x,
            None => return None,
        };
        i += 1;
        assert(all_digits(s@.subrange(start as int, i as int))) by {
            assert forall|k: int| 0 <= k < next.len() implies is_digit(#[trigger] next[k]) by {
                if k < next.len() - 1 {
                    assert(next[k] == s@.subrange(start as int, i - 1)[k]);
                }
            }
        }
    }
    assert(d.take(hi - start) =~= d);
    Some(v)
}

/// Where the value of `key` starts.
fn find_key_tail(s: &[char], key: &str) -> (r: Option<usize>)
    ensures
        match key_tail(s@, key@) {
            Some(t) => r matches Some(i) && i == t && t <= s@.len(),
            None => r is None,
        },
{
    let mut pat: Vec<char> = Vec::new();
    pat.push('"');
    let k = chars_of(key);
    let mut j: usize = 0;
    while j < k.len()
        invariant
            j <= k@.len(),
            pat@ == seq!['"'] + k@.take(j as int),
        decreases k.len() - j,
    {
        pat.push(k[j]);
        j += 1;
        assert(pat@ =~= seq!['"'] + k@.take(j as int));
    }
    pat.push('"');
    assert(k@.take(k@.len() as int) =~= k@);
    assert(pat@ =~= key_pattern(key@));
    let i = match find_pattern(s, pat.as_slice(), 0) {
        Some(i) => i,
        None => return None,
    };
    match find_char(s, ':', i) {
        Some(j) => {
            proof { lemma_find_char_from(s@, ':', i as int); }
            assert(j < s.len());
            Some(j + 1)
        },
        None => None,
    }
}

/// What `find_char_from` finds lies in range.
pub proof fn lemma_find_char_from(s: Seq<char>, c: char, i: int)
    ensures
        find_char_from(s, c, i) matches Some(k) ==> 0 <= i <= k < s.len() && s[k] == c,
    decreases s.len() - i,
{
    if 0 <= i < s.len() && s[i] != c {
        lemma_find_char_from(s, c, i + 1);
    }
}

/// Reads the unsigned integer value of `key`.
fn read_u64_field(s: &[char], key: &str) -> (r: Result<u64, ProjectError>)
    ensures
        match u64_field(s@, key@) {
            Some(v) => r == Ok::<u64, ProjectError>(v),
            None => r == Err::<u64, ProjectError>(ProjectError::InvalidFormat),
        },
{
    let t = match find_key_tail(s, key) {
        Some(t) => t,
        None => return Err(ProjectError::InvalidFormat),
    };
    let a = skip_spaces(s, t);
    let e = skip_digits(s, a);
    match parse_u128(s, a, e) {
        Some(v) => {
            if v <= u64::MAX as u128 {
                Ok(v as u64)
            } else {
                Err(ProjectError::InvalidFormat)
            }
        },
        None => Err(ProjectError::InvalidFormat),
    }
}

/// Reads the number text of `key`.
fn read_number_field(s: &[char], key: &str) -> (r: Result<String, ProjectError>)
    ensures
        match number_field(s@, key@) {
            Some(v) => r matches Ok(text) && text@ == v,
            None => r == Err::<String, ProjectError>(ProjectError::InvalidFormat),
        },
{
    let t = match find_key_tail(s, key) {
        Some(t) => t,
        None => return Err(ProjectError::InvalidFormat),
    };
    let a = skip_spaces(s, t);
    let e = skip_number(s, a);
    Ok(string_of(s, a, e))
}

/// Reads the string value of `key`.
fn read_string_field(s: &[char], key: &str) -> (r: Result<String, ProjectError>)
    ensures
        match string_field(s@, key@) {
            Some(v) => r matches Ok(text) && text@ == v,
            None => r == Err::<String, ProjectError>(ProjectError::InvalidFormat),
        },
{
    let t = match find_key_tail(s, key) {
        Some(t) => t,
        None => return Err(ProjectError::InvalidFormat),
    };
    let a = skip_spaces(s, t);
    let n = s.len();
    if a >= n || s[a] != '"' {
        return Err(ProjectError::InvalidFormat);
    }
    let mut out = String::new();
    let mut escaped = false;
    let mut i = a + 1;
    while i < n
        invariant
            n == s@.len(),
            a < i <= n,
            key_tail(s@, key@) == Some(t as int),
            a == skip_space(s@, t as int),
            s@[a as int] == '"',
            unescape(s@, a + 1, false, Seq::empty()) == unescape(s@, i as int, escaped, out@),
        decreases n - i,
    {
        let c = s[i];
        if escaped {
            if c == '\\' || c == '"' {
                push_char(&mut out, c);
            } else {
                return Err(ProjectError::InvalidFormat);
            }
            escaped = false;
        } else if c == '\\' {
            escaped = true;
        } else if c == '"' {
            return Ok(out);
        } else {
            push_char(&mut out, c);
        }
        i += 1;
    }
    Err(ProjectError::InvalidFormat)
}

/// Reads the array text of `key`, as an index range of `s`.
fn read_array_field(s: &[char], key: &str) -> (r: Result<(usize, usize), ProjectError>)
    ensures
        match array_field(s@, key@) {
            Some(v) => r matches Ok((lo, hi)) && lo <= hi <= s@.len() && s@.subrange(lo as int, hi as int) == v,
            None => r == Err::<(usize, usize), ProjectError>(ProjectError::InvalidFormat),
        },
{
    let t = match find_key_tail(s, key) {
        Some(t) => t,
        None => return Err(ProjectError::InvalidFormat),
    };
    let a = skip_spaces(s, t);
    let n = s.len();
    if a >= n || s[a] != '[' {
        return Err(ProjectError::InvalidFormat);
    }
    match rfind(s, ']', a + 1, n) {
        Some(r) => {
            proof { lemma_rfind_char(s@, ']', a + 1, n as int); }
            Ok((a + 1, r))
        },
        None => Err(ProjectError::InvalidFormat),
    }
}

/// What `rfind_char` finds lies in range.
pub proof fn lemma_rfind_char(s: Seq<char>, c: char, lo: int, hi: int)
    ensures
        rfind_char(s, c, lo, hi) matches Some(k) ==> 0 <= lo <= k < hi <= s.len() && s[k] == c,
    decreases hi - lo,
{
    if hi > lo && hi <= s.len() && lo >= 0 && s[hi - 1] != c {
        lemma_rfind_char(s, c, lo, hi - 1);
    }
}

/// Splits `s` into its top-level objects.
fn find_objects(s: &[char]) -> (r: Result<Vec<(usize, usize)>, ProjectError>)
    ensures
        match object_items(s@) {
            Some(items) => r matches Ok(v) && v@.len() == items.len() && forall|k: int|
                0 <= k < items.len() ==> (#[trigger] v@[k]).0 == items[k].0 && v@[k].1 == items[k].1
                    && items[k].0 <= items[k].1 < s@.len(),
            None => r == Err::<Vec<(usize, usize)>, ProjectError>(ProjectError::InvalidFormat),
        },
{
    let n = s.len();
    let mut items: Vec<(usize, usize)> = Vec::new();
    let mut start: Option<usize> = None;
    let mut in_string = false;
    let mut escaped = false;
    let mut i: usize = 0;
    assert(items@.map_values(|p: (usize, usize)| (p.0 as int, p.1 as int)) =~= Seq::<(int, int)>::empty());
    while i < n
        invariant
            n == s@.len(),
            i <= n,
            object_items(s@) == scan_objects(
                s@,
                i as int,
                match start { Some(b) => Some(b as int), None => None },
                in_string,
                escaped,
                items@.map_values(|p: (usize, usize)| (p.0 as int, p.1 as int)),
            ),
            start matches Some(b) ==> b < i,
            forall|k: int| 0 <= k < items@.len() ==> (#[trigger] items@[k]).0 <= items@[k].1 < i,
        decreases n - i,
    {
        let c = s[i];
        let ghost before = items@;
        if escaped {
            escaped = false;
        } else if c == '\\' && in_string {
            escaped = true;
        } else if c == '"' {
            in_string = !in_string;
        } else if !in_string && c == '{' {
            if start.is_some() {
                return Err(ProjectError::InvalidFormat);
            }
            start = Some(i);
        } else if !in_string && c == '}' {
            let begin = match start {
                Some(b) => b,
                None => return Err(ProjectError::InvalidFormat),
            };
            start = None;
            items.push((begin, i));
            assert(items@.map_values(|p: (usize, usize)| (p.0 as int, p.1 as int)) =~= before.map_values(
                |p: (usize, usize)| (p.0 as int, p.1 as int),
            ).push((begin as int, i as int)));
        }
        i += 1;
    }
    if start.is_some() || in_string {
        return Err(ProjectError::InvalidFormat);
    }
    Ok(items)
}

/// The character of a decimal digit.
pub open spec fn digit_char(d: nat) -> char {
    ((d + 48) as u8) as char
}

/// The decimal text of `n`, without leading zeros.
pub open spec fn decimal_text(n: nat) -> Seq<char>
    decreases n,
{
    if n < 10 {
        seq![digit_char(n)]
    } else {
        decimal_text(n / 10).push(digit_char(n % 10))
    }
}

/// How one character is written inside a JSON string: `\` and `"` get a
/// backslash in front, anything else stands as it is.
pub open spec fn escape_char(c: char) -> Seq<char> {
    if c == '\\' {
        seq!['\\', '\\']
    } else if c == '"' {
        seq!['\\', '"']
    } else {
        seq![c]
    }
}

/// A text written as the body of a JSON string.
pub open spec fn escape_spec(s: Seq<char>) -> Seq<char>
    decreases s.len(),
{
    if s.len() == 0 {
        Seq::empty()
    } else {
        escape_spec(s.drop_last()) + escape_char(s.last())
    }
}

/// The JSON object of one track.
pub open spec fn track_json(t: TrackView) -> Seq<char> {
    "{\"id\":\""@ + decimal_text(t.id as nat) + "\",\"name\":\""@ + escape_spec(t.name)
        + "\",\"kind\":\"audio\"}"@
}

/// The track objects separated by commas.
pub open spec fn tracks_json(ts: Seq<TrackView>) -> Seq<char>
    decreases ts.len(),
{
    if ts.len() == 0 {
        Seq::empty()
    } else if ts.len() == 1 {
        track_json(ts[0])
    } else {
        tracks_json(ts.drop_last()) + seq![','] + track_json(ts.last())
    }
}

/// The project file of `p`, with `tempo` as the text of its tempo.
pub open spec fn project_json(p: ProjectView, tempo: Seq<char>) -> Seq<char> {
    "{\n  \"schemaVersion\": 1,\n  \"projectId\": \""@ + escape_spec(p.id) + "\",\n  \"revision\": "@
        + decimal_text(p.revision as nat) + ",\n  \"tempo\": "@ + tempo + ",\n  \"tracks\": ["@
        + tracks_json(p.tracks) + "]\n}\n"@
}

/// A track read from its JSON object: a string `id` holding an unsigned
/// integer, and a string `name`.
pub open spec fn parse_track(o: Seq<char>) -> Option<TrackView> {
    match (string_field(o, "id"@), string_field(o, "name"@)) {
        (Some(id_text), Some(name)) => match parse_unsigned(id_text, u128::MAX as nat) {
            Some(id) => Some(TrackView { id: id as u128, name }),
            None => None,
        },
        _ => None,
    }
}

/// The tracks read from the objects of `body`, or `None` if one is malformed.
pub open spec fn parse_tracks(body: Seq<char>, spans: Seq<(int, int)>) -> Option<Seq<TrackView>>
    decreases spans.len(),
{
    if spans.len() == 0 {
        Some(Seq::empty())
    } else {
        match (
            parse_tracks(body, spans.drop_last()),
            parse_track(body.subrange(spans.last().0, spans.last().1 + 1)),
        ) {
            (Some(ts), Some(t)) => Some(ts.push(t)),
            _ => None,
        }
    }
}

/// A project file as read, before its tempo text is turned into a number.
pub struct ProjectRecord {
    pub id: String,
    pub revision: u64,
    /// The text of the tempo value.
    pub tempo_text: String,
    pub tracks: Vec<Track>,
}

/// Abstract value of a project record.
pub struct RecordView {
    pub id: Seq<char>,
    pub revision: u64,
    pub tempo_text: Seq<char>,
    pub tracks: Seq<TrackView>,
}

impl View for ProjectRecord {
    type V = RecordView;

    open spec fn view(&self) -> RecordView {
        RecordView {
            id: self.id@,
            revision: self.revision,
            tempo_text: self.tempo_text@,
            tracks: self.tracks@.map_values(|t: Track| t@),
        }
    }
}

/// What reading a project file gives: schema version 1 is required, then the
/// project id, revision, tempo text and tracks.
pub open spec fn parse_json_spec(s: Seq<char>) -> Result<RecordView, ProjectError> {
    match u64_field(s, "schemaVersion"@) {
        None => Err(ProjectError::InvalidFormat),
        Some(version) => if version != 1 {
            Err(ProjectError::UnsupportedSchema)
        } else {
            match (
                string_field(s, "projectId"@),
                u64_field(s, "revision"@),
                number_field(s, "tempo"@),
                array_field(s, "tracks"@),
            ) {
                (Some(id), Some(revision), Some(tempo_text), Some(body)) => match object_items(
                    body,
                ) {
                    None => Err(ProjectError::InvalidFormat),
                    Some(spans) => match parse_tracks(body, spans) {
                        None => Err(ProjectError::InvalidFormat),
                        Some(tracks) => Ok(RecordView { id, revision, tempo_text, tracks }),
                    },
                },
                _ => Err(ProjectError::InvalidFormat),
            }
        },
    }
}

/// The project that a record describes, given the tempo that its text
/// denotes (`None` when the text is not a number); the tempo must lie in
/// range.
pub open spec fn from_record_spec(r: RecordView, tempo: Option<u64>) -> Result<ProjectView, ProjectError> {
    match tempo {
        None => Err(ProjectError::InvalidFormat),
        Some(bits) => if tempo_in_range(bits) {
            Ok(ProjectView { id: r.id, revision: r.revision, tempo: bits, tracks: r.tracks })
        } else {
            Err(ProjectError::InvalidFormat)
        },
    }
}

/// Copies `s[lo..hi]`.
fn copy_range(s: &[char], lo: usize, hi: usize) -> (out: Vec<char>)
    requires
        lo <= hi <= s@.len(),
    ensures
        out@ == s@.subrange(lo as int, hi as int),
{
    let mut out: Vec<char> = Vec::new();
    let mut i = lo;
    while i < hi
        invariant
            lo <= i <= hi <= s@.len(),
            out@ == s@.subrange(lo as int, i as int),
        decreases hi - i,
    {
        out.push(s[i]);
        i += 1;
        assert(out@ =~= s@.subrange(lo as int, i as int));
    }
    out
}

/// Reads one track object.
fn read_track(o: &[char]) -> (r: Result<Track, ProjectError>)
    ensures
        match parse_track(o@) {
            Some(t) => r matches Ok(track) && track@ == t,
            None => r == Err::<Track, ProjectError>(ProjectError::InvalidFormat),
        },
{
    let id_text = read_string_field(o, "id")?;
    let id_chars = chars_of(id_text.as_str());
    let id = match parse_u128(id_chars.as_slice(), 0, id_chars.len()) {
        Some(v) => v,
        None => {
            assert(id_chars@.subrange(0, id_chars@.len() as int) =~= id_chars@);
            return Err(ProjectError::InvalidFormat);
        },
    };
    assert(id_chars@.subrange(0, id_chars@.len() as int) =~= id_chars@);
    let name = read_string_field(o, "name")?;
    Ok(Track { id, name })
}

impl Project {
    /// Reads a project file in the strict subset of JSON that `to_json`
    /// writes. The tempo is returned as text, to be read as a number by the
    /// caller and passed to `from_record`.
    pub fn parse_json(input: &str) -> (r: Result<ProjectRecord, ProjectError>)
        ensures
            match parse_json_spec(input@) {
                Ok(v) => r matches Ok(rec) && rec@ == v,
                Err(e) => r matches Err(e2) && e2 == e,
            },
    {
        let s = chars_of(input);
        let version = read_u64_field(s.as_slice(), "schemaVersion")?;
        if version != 1 {
            return Err(ProjectError::UnsupportedSchema);
        }
        let id = read_string_field(s.as_slice(), "projectId")?;
        let revision = read_u64_field(s.as_slice(), "revision")?;
        let tempo_text = read_number_field(s.as_slice(), "tempo")?;
        let (lo, hi) = read_array_field(s.as_slice(), "tracks")?;
        let body = copy_range(s.as_slice(), lo, hi);
        let spans = find_objects(body.as_slice())?;
        let ghost items = object_items(body@)->Some_0;
        let blen = body.len();
        let mut tracks: Vec<Track> = Vec::new();
        let mut k: usize = 0;
        assert(tracks@.map_values(|t: Track| t@) =~= Seq::<TrackView>::empty());
        while k < spans.len()
            invariant
                blen == body@.len(),
                parse_json_spec(input@) == (match parse_tracks(body@, items) {
                    None => Err(ProjectError::InvalidFormat),
                    Some(ts) => Ok(RecordView { id: id@, revision, tempo_text: tempo_text@, tracks: ts }),
                }),
                k <= spans@.len(),
                spans@.len() == items.len(),
                object_items(body@) == Some(items),
                forall|m: int|
                    0 <= m < items.len() ==> (#[trigger] spans@[m]).0 == items[m].0 && spans@[m].1
                        == items[m].1 && items[m].0 <= items[m].1 < body@.len(),
                parse_tracks(body@, items.take(k as int)) == Some(
                    tracks@.map_values(|t: Track| t@),
                ),
            decreases spans.len() - k,
        {
            let (b, e) = spans[k];
            let object = copy_range(body.as_slice(), b, e + 1);
            assert(items.take(k + 1).drop_last() =~= items.take(k as int));
            assert(items.take(k + 1).last() == items[k as int]);
            let track = match read_track(object.as_slice()) {
                Ok(t) => t,
                Err(err) => {
                    assert(parse_tracks(body@, items.take(k + 1)) is None);
                    proof { lemma_parse_tracks_fails(body@, items, k + 1); }
                    assert(items.take(items.len() as int) =~= items);
                    return Err(err);
                },
            };
            let ghost before = tracks@;
            tracks.push(track);
            assert(tracks@.map_values(|t: Track| t@) =~= before.map_values(|t: Track| t@).push(
                track@,
            ));
            k += 1;
        }
        assert(items.take(items.len() as int) =~= items);
        Ok(ProjectRecord { id, revision, tempo_text, tracks })
    }

    /// The project that a record describes, given the tempo bit pattern that
    /// its tempo text denotes, or `None` if the text is not a number.
    pub fn from_record(record: ProjectRecord, tempo: Option<u64>) -> (r: Result<Project, ProjectError>)
        ensures
            match from_record_spec(record@, tempo) {
                Ok(p) => r matches Ok(project) && project@ == p,
                Err(e) => r matches Err(e2) && e2 == e,
            },
    {
        match tempo {
            None => Err(ProjectError::InvalidFormat),
            Some(bits) => {
                if MIN_TEMPO_BITS <= bits && bits <= MAX_TEMPO_BITS {
                    Ok(Project { id: record.id, revision: record.revision, tempo: bits, tracks: record.tracks })
                } else {
                    Err(ProjectError::InvalidFormat)
                }
            },
        }
    }
}

/// Once one object fails to read, reading more objects fails too.
proof fn lemma_parse_tracks_fails(body: Seq<char>, items: Seq<(int, int)>, k: int)
    requires
        0 < k <= items.len(),
        parse_tracks(body, items.take(k)) is None,
    ensures
        parse_tracks(body, items) is None,
    decreases items.len() - k,
{
    if k < items.len() {
        assert(items.take(k + 1).drop_last() =~= items.take(k));
        lemma_parse_tracks_fails(body, items, k + 1);
    } else {
        assert(items.take(k) =~= items);
    }
}

/// Appends the decimal text of `n`.
pub(crate) fn push_decimal(out: &mut String, n: u128)
    ensures
        final(out)@ == old(out)@ + decimal_text(n as nat),
    decreases n,
{
    if n >= 10 {
        push_decimal(out, n / 10);
    }
    let c = ((n % 10) as u8 + 48u8) as char;
    push_char(out, c);
    if n >= 10 {
        assert(old(out)@ + decimal_text(n as nat) =~= old(out)@ + decimal_text((n / 10) as nat) + seq![c]);
    } else {
        assert(old(out)@ + decimal_text(n as nat) =~= old(out)@.push(c));
    }
}

/// Appends `value` written as the body of a JSON string.
fn push_escaped(out: &mut String, value: &str)
    ensures
        final(out)@ == old(out)@ + escape_spec(value@),
{
    let cs = chars_of(value);
    let mut i: usize = 0;
    while i < cs.len()
        invariant
            i <= cs@.len(),
            cs@ == value@,
            out@ == old(out)@ + escape_spec(cs@.take(i as int)),
        decreases cs.len() - i,
    {
        let c = cs[i];
        let ghost prev = out@;
        if c == '\\' {
            push_char(out, '\\');
            push_char(out, '\\');
        } else if c == '"' {
            push_char(out, '\\');
            push_char(out, '"');
        } else {
            push_char(out, c);
        }
        assert(cs@.take(i + 1).drop_last() =~= cs@.take(i as int));
        assert(out@ =~= prev + escape_char(c));
        i += 1;
    }
    assert(cs@.take(cs@.len() as int) =~= cs@);
}

/// Writes `value` as the body of a JSON string: each `\` and `"` gets a
/// backslash in front.
pub fn escape_json(value: &str) -> (out: String)
    ensures
        out@ == escape_spec(value@),
{
    let mut out = String::new();
    push_escaped(&mut out, value);
    out
}

/// Appends the JSON object of one track.
fn push_track(out: &mut String, t: &Track)
    ensures
        final(out)@ == old(out)@ + track_json(t@),
{
    out.append("{\"id\":\"");
    push_decimal(out, t.id);
    out.append("\",\"name\":\"");
    push_escaped(out, t.name.as_str());
    out.append("\",\"kind\":\"audio\"}");
    assert(out@ =~= old(out)@ + track_json(t@));
}

impl Project {
    /// Writes the project file; `tempo_text` is the decimal text of the
    /// tempo, as `f64`'s `Display` writes it.
    pub fn to_json(&self, tempo_text: &str) -> (out: String)
        ensures
            out@ == project_json(self@, tempo_text@),
    {
        let mut tracks = String::new();
        let mut i: usize = 0;
        let ghost ts = self@.tracks;
        while i < self.tracks.len()
            invariant
                i <= self.tracks@.len(),
                ts == self@.tracks,
                tracks@ == tracks_json(ts.take(i as int)),
            decreases self.tracks.len() - i,
        {
            let ghost prev = tracks@;
            if i > 0 {
                push_char(&mut tracks, ',');
            }
            push_track(&mut tracks, &self.tracks[i]);
            assert(ts.take(i + 1).drop_last() =~= ts.take(i as int));
            assert(ts.take(i + 1).last() == self.tracks@[i as int]@);
            if i == 0 {
                assert(ts.take(i as int) =~= Seq::<TrackView>::empty());
                assert(tracks@ =~= tracks_json(ts.take(i + 1)));
            } else {
                assert(tracks@ =~= tracks_json(ts.take(i + 1)));
            }
            i += 1;
        }
        assert(ts.take(ts.len() as int) =~= ts);
        let mut out = String::new();
        out.append("{\n  \"schemaVersion\": 1,\n  \"projectId\": \"");
        push_escaped(&mut out, self.id.as_str());
        out.append("\",\n  \"revision\": ");
        push_decimal(&mut out, self.revision as u128);
        out.append(",\n  \"tempo\": ");
        out.append(tempo_text);
        out.append(",\n  \"tracks\": [");
        out.append(tracks.as_str());
        out.append("]\n}\n");
        assert(out@ =~= project_json(self@, tempo_text@));
        out
    }
}

/// The sibling path that a project is first written to: the path with
/// `.tmp` appended.
pub fn temporary_path(path: &str) -> (out: String)
    ensures
        out@ == path@ + ".tmp"@,
{
    let mut out = String::from_str(path);
    out.append(".tmp");
    out
}

} // verus!

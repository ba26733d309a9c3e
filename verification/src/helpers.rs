//! Small helpers for what the application shows: durations, dates,
//! countries, file names and random states.

use crate::text::{
    chars_of, decimal, decimal_chars, digit, digit_char, pieces_view, push_chars, push_str_chars,
    split, split_chars, string_of,
};
use rand::Rng;
use vstd::prelude::*;
use vstd::string::{StrSliceExecFns, StringExecFns};
use vstd::utf8::encode_utf8;

verus! {

/// Trusted: `char::from_u32` of the standard library gives the character
/// with the given code when the code is a Unicode scalar value, and `None`
/// otherwise.
pub assume_specification[ char::from_u32 ](code: u32) -> (c: Option<char>)
    ensures
        code <= 0xd7ff || 0xe000 <= code <= 0x10ffff ==> c == Some(code as char),
        !(code <= 0xd7ff || 0xe000 <= code <= 0x10ffff) ==> c is None,
;

/// A number below one hundred in two decimal digits.
pub open spec fn two_digits(n: nat) -> Seq<char> {
    seq![digit(n / 10), digit(n % 10)]
}

/// A duration in milliseconds as minutes and seconds: the minutes in
/// decimal, a colon, and the seconds in two digits.
pub open spec fn duration_text(ms: u32) -> Seq<char> {
    decimal((ms as nat / 1000) / 60).push(':') + two_digits((ms as nat / 1000) % 60)
}

/// The duration as `M:SS`; fractions of a second are dropped.
pub fn format_duration(ms: u32) -> (text: String)
    ensures
        text@ == duration_text(ms),
{
    let total_seconds = ms / 1000;
    let minutes = total_seconds / 60;
    let seconds = total_seconds % 60;
    let mut out = decimal_chars(minutes as u64);
    out.push(':');
    out.push(digit_char((seconds / 10) as u8));
    out.push(digit_char((seconds % 10) as u8));
    let text = string_of(&out);
    assert(text@ =~= duration_text(ms));
    text
}

/// The characters that may not stand in a file name.
pub open spec fn is_forbidden_in_filename(c: char) -> bool {
    c == '/' || c == '\\' || c == ':' || c == '*' || c == '?' || c == '"' || c == '<' || c == '>'
        || c == '|'
}

/// The name with an underscore in place of every character that may not
/// stand in a file name.
pub open spec fn sanitized(name: Seq<char>) -> Seq<char> {
    name.map_values(
        |c: char|
            if is_forbidden_in_filename(c) {
                '_'
            } else {
                c
            },
    )
}

/// The name with `_` in place of each of `/ \ : * ? " < > |`.
pub fn sanitize_filename(name: &str) -> (safe: String)
    ensures
        safe@ == sanitized(name@),
{
    let v = chars_of(name);
    let mut out: Vec<char> = Vec::new();
    let mut i: usize = 0;
    while i < v.len()
        invariant
            i <= v.len(),
            out@ == sanitized(v@.take(i as int)),
        decreases v.len() - i,
    {
        let c = v[i];
        let forbidden = c == '/' || c == '\\' || c == ':' || c == '*' || c == '?' || c == '"' || c
            == '<' || c == '>' || c == '|';
        out.push(
            if forbidden {
                '_'
            } else {
                c
            },
        );
        proof {
            assert(out@ =~= sanitized(v@.take(i as int + 1)));
        }
        i += 1;
    }
    proof {
        assert(v@.take(v.len() as int) =~= v@);
    }
    string_of(&out)
}

/// The name of the file to which a playlist is exported: the sanitized name
/// of the playlist and `.json`.
pub fn export_filename(playlist_name: &str) -> (filename: String)
    ensures
        filename@ == sanitized(playlist_name@) + ".json"@,
{
    let mut filename = sanitize_filename(playlist_name);
    filename.append(".json");
    filename
}

/// The text ends with `suffix`.
pub open spec fn ends_with(text: Seq<char>, suffix: Seq<char>) -> bool {
    text.len() >= suffix.len() && text.skip(text.len() - suffix.len()) == suffix
}

/// Whether `text` ends with `suffix`.
pub fn text_ends_with(text: &Vec<char>, suffix: &Vec<char>) -> (b: bool)
    ensures
        b == ends_with(text@, suffix@),
{
    if text.len() < suffix.len() {
        return false;
    }
    let start = text.len() - suffix.len();
    let mut i: usize = 0;
    while i < suffix.len()
        invariant
            i <= suffix.len(),
            start + suffix.len() == text.len(),
            forall|j: int| 0 <= j < i ==> text@[start + j] == suffix@[j],
        decreases suffix.len() - i,
    {
        if text[start + i] != suffix[i] {
            proof {
                assert(text@.skip(start as int)[i as int] != suffix@[i as int]);
            }
            return false;
        }
        i += 1;
    }
    assert(text@.skip(start as int) =~= suffix@);
    true
}

/// The path under which an export is saved: the path that the user chose,
/// with `.json` at its end if it did not end so.
pub fn json_path(chosen: &str) -> (path: String)
    ensures
        ends_with(chosen@, ".json"@) ==> path@ == chosen@,
        !ends_with(chosen@, ".json"@) ==> path@ == chosen@ + ".json"@,
{
    let text = chars_of(chosen);
    let suffix = chars_of(".json");
    if text_ends_with(&text, &suffix) {
        String::from_str(chosen)
    } else {
        String::from_str(chosen).concat(".json")
    }
}

/// The characters of a random state: upper-case letters, lower-case
/// letters and digits, sixty-two in all.
pub open spec fn charset_at(i: int) -> char {
    if i < 26 {
        (0x41 + i) as char
    } else if i < 52 {
        (0x61 + i - 26) as char
    } else {
        (0x30 + i - 52) as char
    }
}

/// The number of characters to draw from.
pub const CHARSET_LEN: usize = 62;

/// The character of the set at index `i`.
pub fn charset_char(i: usize) -> (c: char)
    requires
        i < CHARSET_LEN,
    ensures
        c == charset_at(i as int),
{
    if i < 26 {
        (0x41u8 + i as u8) as char
    } else if i < 52 {
        (0x61u8 + (i - 26) as u8) as char
    } else {
        (0x30u8 + (i - 52) as u8) as char
    }
}

/// Trusted: `Rng::random_range` of the `rand` crate, on the generator of
/// the thread, gives a number of the range; which one, nothing says. The
/// empty range is left out, on which it fails.
#[verifier::external_body]
pub(crate) fn random_below(bound: usize) -> (n: usize)
    requires
        bound > 0,
    ensures
        n < bound,
{
    rand::rng().random_range(0..bound)
}

/// The text whose characters are those of the set at the given indices.
pub fn string_from_indices(indices: &Vec<usize>) -> (text: String)
    requires
        forall|i: int| 0 <= i < indices.len() ==> indices[i] < CHARSET_LEN,
    ensures
        text@ == indices@.map_values(|i: usize| charset_at(i as int)),
{
    let mut out: Vec<char> = Vec::new();
    let mut k: usize = 0;
    while k < indices.len()
        invariant
            k <= indices.len(),
            forall|i: int| 0 <= i < indices.len() ==> indices[i] < CHARSET_LEN,
            out@ == indices@.take(k as int).map_values(|i: usize| charset_at(i as int)),
        decreases indices.len() - k,
    {
        out.push(charset_char(indices[k]));
        proof {
            assert(out@ =~= indices@.take(k as int + 1).map_values(
                |i: usize| charset_at(i as int),
            ));
        }
        k += 1;
    }
    proof {
        assert(indices@.take(indices.len() as int) =~= indices@);
    }
    string_of(&out)
}

/// The character is an ASCII letter or digit.
pub open spec fn is_alphanumeric(c: char) -> bool {
    'A' <= c <= 'Z' || 'a' <= c <= 'z' || '0' <= c <= '9'
}

/// A random text of `length` characters, each an ASCII letter or digit.
pub fn generate_random_string(length: usize) -> (text: String)
    ensures
        text@.len() == length,
        forall|i: int| 0 <= i < length ==> is_alphanumeric(#[trigger] text@[i]),
{
    let mut indices: Vec<usize> = Vec::new();
    let mut k: usize = 0;
    while k < length
        invariant
            k <= length,
            indices.len() == k,
            forall|i: int| 0 <= i < indices.len() ==> indices[i] < CHARSET_LEN,
        decreases length - k,
    {
        indices.push(random_below(CHARSET_LEN));
        k += 1;
    }
    let text = string_from_indices(&indices);
    proof {
        assert forall|i: int| 0 <= i < length implies is_alphanumeric(#[trigger] text@[i]) by {
            assert(text@[i] == charset_at(indices[i] as int));
        }
    }
    text
}

/// The number of the month that two digits name, from `01` to `12`.
pub open spec fn month_number(month: Seq<char>) -> Option<nat> {
    if month.len() == 2 && month[0] == '0' && '1' <= month[1] <= '9' {
        Some((month[1] as nat - '0' as nat) as nat)
    } else if month.len() == 2 && month[0] == '1' && '0' <= month[1] <= '2' {
        Some((10 + month[1] as nat - '0' as nat) as nat)
    } else {
        None
    }
}

/// The English name of the month with the given number.
pub open spec fn month_name(number: nat) -> Seq<char> {
    if number == 1 {
        "January"@
    } else if number == 2 {
        "February"@
    } else if number == 3 {
        "March"@
    } else if number == 4 {
        "April"@
    } else if number == 5 {
        "May"@
    } else if number == 6 {
        "June"@
    } else if number == 7 {
        "July"@
    } else if number == 8 {
        "August"@
    } else if number == 9 {
        "September"@
    } else if number == 10 {
        "October"@
    } else if number == 11 {
        "November"@
    } else {
        "December"@
    }
}

/// The number of leading zeros of a text.
pub open spec fn leading_zeros(s: Seq<char>) -> int
    decreases s.len(),
{
    if s.len() == 0 || s[0] != '0' {
        0
    } else {
        1 + leading_zeros(s.drop_first())
    }
}

/// The text without its leading zeros.
pub open spec fn without_leading_zeros(s: Seq<char>) -> Seq<char> {
    s.skip(leading_zeros(s))
}

/// The leading zeros end at the first character that is not a zero.
pub proof fn lemma_leading_zeros(s: Seq<char>, n: int)
    requires
        0 <= n <= s.len(),
        forall|j: int| 0 <= j < n ==> s[j] == '0',
        n < s.len() ==> s[n] != '0',
    ensures
        leading_zeros(s) == n,
    decreases n,
{
    if n > 0 {
        let t = s.drop_first();
        assert forall|j: int| 0 <= j < n - 1 implies t[j] == '0' by {
            assert(t[j] == s[j + 1]);
        }
        lemma_leading_zeros(t, n - 1);
    }
}

/// A date `month day, year` with the month by its name.
pub open spec fn long_date(month: Seq<char>, day: Seq<char>, year: Seq<char>) -> Seq<char> {
    month.push(' ') + without_leading_zeros(day) + ", "@ + year
}

/// How a release date is shown: a date of three parts between hyphens whose
/// second names a month becomes `Month D, YYYY`; any other text stays.
pub open spec fn release_date_text(date: Seq<char>) -> Seq<char> {
    let parts = split(date, '-');
    if parts.len() == 3 {
        match month_number(parts[1]) {
            Some(number) => long_date(month_name(number), parts[2], parts[0]),
            None => date,
        }
    } else {
        date
    }
}

/// The number of the month that the characters name.
pub fn month_of(month: &Vec<char>) -> (number: Option<u8>)
    ensures
        match month_number(month@) {
            Some(n) => number == Some(n as u8) && 1 <= n <= 12,
            None => number is None,
        },
{
    if month.len() != 2 {
        return None;
    }
    let tens = crate::text::digit_value(month[0]);
    let ones = crate::text::digit_value(month[1]);
    match (tens, ones) {
        (Some(t), Some(o)) => {
            if t == 0 && o >= 1 {
                Some(o)
            } else if t == 1 && o <= 2 {
                Some(10 + o)
            } else {
                None
            }
        },
        _ => None,
    }
}

/// The English name of the month with the given number.
pub fn month_name_str(number: u8) -> (name: &'static str)
    requires
        1 <= number <= 12,
    ensures
        name@ == month_name(number as nat),
{
    if number == 1 {
        "January"
    } else if number == 2 {
        "February"
    } else if number == 3 {
        "March"
    } else if number == 4 {
        "April"
    } else if number == 5 {
        "May"
    } else if number == 6 {
        "June"
    } else if number == 7 {
        "July"
    } else if number == 8 {
        "August"
    } else if number == 9 {
        "September"
    } else if number == 10 {
        "October"
    } else if number == 11 {
        "November"
    } else {
        "December"
    }
}

/// The date `month day, year`, the day without leading zeros.
pub fn long_date_string(month: &str, day: &Vec<char>, year: &Vec<char>) -> (text: String)
    ensures
        text@ == long_date(month@, day@, year@),
{
    let mut out = chars_of(month);
    out.push(' ');
    let mut start: usize = 0;
    while start < day.len() && day[start] == '0'
        invariant
            start <= day.len(),
            forall|j: int| 0 <= j < start ==> day@[j] == '0',
        decreases day.len() - start,
    {
        start += 1;
    }
    proof {
        lemma_leading_zeros(day@, start as int);
    }
    let trimmed = crate::text::slice_chars(day, start, day.len());
    push_chars(&mut out, &trimmed);
    push_str_chars(&mut out, ", ");
    push_chars(&mut out, year);
    proof {
        assert(trimmed@ =~= without_leading_zeros(day@));
    }
    string_of(&out)
}

/// The release date as it is shown: `YYYY-MM-DD` becomes `Month D, YYYY`;
/// a text of another shape, or with a month that is none, stays as it is.
pub fn format_release_date(date: &str) -> (text: String)
    ensures
        text@ == release_date_text(date@),
{
    let v = chars_of(date);
    let parts = split_chars(&v, '-');
    proof {
        assert(pieces_view(parts@).len() == parts.len());
    }
    if parts.len() != 3 {
        return String::from_str(date);
    }
    proof {
        assert(pieces_view(parts@)[0] == parts@[0]@);
        assert(pieces_view(parts@)[1] == parts@[1]@);
        assert(pieces_view(parts@)[2] == parts@[2]@);
    }
    match month_of(&parts[1]) {
        Some(number) => long_date_string(month_name_str(number), &parts[2], &parts[0]),
        None => String::from_str(date),
    }
}

/// The upper-case form of a text, as Unicode defines it.
pub uninterp spec fn uppercase_of(text: Seq<char>) -> Seq<char>;

/// Trusted: `str::to_uppercase` of the standard library gives the
/// upper-case form of the text, which depends on the text alone.
#[verifier::external_body]
pub(crate) fn to_uppercase(text: &str) -> (upper: String)
    ensures
        upper@ == uppercase_of(text@),
{
    text.to_uppercase()
}

/// The English short name of the country with the given two-letter code in
/// ISO 3166-1, if the code, in upper case, is one.
pub uninterp spec fn country_name_of(code: Seq<char>) -> Option<Seq<char>>;

/// Trusted: `CountryCode::for_alpha2` of the `isocountry` crate finds the
/// country of an upper-case two-letter code, and `CountryCode::name` gives
/// its English short name. The result depends on the code alone.
#[verifier::external_body]
pub(crate) fn country_name(code: &str) -> (name: Option<String>)
    ensures
        crate::token::text_view(name) == country_name_of(code@),
{
    match isocountry::CountryCode::for_alpha2(code) {
        Ok(country) => Some(country.name().to_string()),
        Err(_) => None,
    }
}

/// The character is an ASCII letter.
pub open spec fn is_ascii_letter(c: char) -> bool {
    'A' <= c <= 'Z' || 'a' <= c <= 'z'
}

/// The regional indicator symbol for an ASCII letter: the symbol for `A`
/// moved on by the letter's distance from `A`.
pub open spec fn regional_indicator(c: char) -> char {
    (0x1f1e6 + c as int - 0x41) as char
}

/// The flag for an upper-case country code: the regional indicators of its
/// letters when its UTF-8 form has two bytes and all its characters are
/// ASCII letters; else the empty text.
pub open spec fn flag_of(upper: Seq<char>) -> Seq<char> {
    if encode_utf8(upper).len() == 2 && forall|i: int|
        0 <= i < upper.len() ==> is_ascii_letter(#[trigger] upper[i]) {
        upper.map_values(|c: char| regional_indicator(c))
    } else {
        Seq::<char>::empty()
    }
}

/// The regional indicator for the letter `c`, if it is an ASCII letter.
fn indicator(c: char) -> (symbol: Option<char>)
    ensures
        is_ascii_letter(c) ==> symbol == Some(regional_indicator(c)),
        !is_ascii_letter(c) ==> symbol is None,
{
    let n: u32 = c as u32;
    if (0x41 <= n && n <= 0x5a) || (0x61 <= n && n <= 0x7a) {
        char::from_u32(0x1f1e6 + (n - 0x41))
    } else {
        None
    }
}

/// The flag for a country code that is already in upper case.
pub fn flag_of_uppercase(upper: &str) -> (flag: String)
    ensures
        flag@ == flag_of(upper@),
{
    let bytes = upper.as_bytes_vec();
    if bytes.len() != 2 {
        return String::new();
    }
    let v = chars_of(upper);
    let mut out: Vec<char> = Vec::new();
    let mut i: usize = 0;
    while i < v.len()
        invariant
            i <= v.len(),
            v@ == upper@,
            forall|j: int| 0 <= j < i ==> is_ascii_letter(#[trigger] v@[j]),
            out@ == v@.take(i as int).map_values(|c: char| regional_indicator(c)),
        decreases v.len() - i,
    {
        match indicator(v[i]) {
            Some(symbol) => {
                out.push(symbol);
            },
            None => {
                proof {
                    assert(!is_ascii_letter(upper@[i as int]));
                }
                return String::new();
            },
        }
        proof {
            assert(out@ =~= v@.take(i as int + 1).map_values(|c: char| regional_indicator(c)));
        }
        i += 1;
    }
    proof {
        assert(v@.take(v.len() as int) =~= v@);
    }
    string_of(&out)
}

/// The emoji flag for a two-letter country code of either case.
pub fn country_code_to_flag(code: &str) -> (flag: String)
    ensures
        flag@ == flag_of(uppercase_of(code@)),
{
    let upper = to_uppercase(code);
    flag_of_uppercase(upper.as_str())
}

/// A country as it is shown: its name, or its code when it has no name,
/// followed by a space and its flag when it has one.
pub open spec fn country_text(code: Seq<char>, name: Option<Seq<char>>, flag: Seq<char>) -> Seq<
    char,
> {
    let label = match name {
        Some(n) => n,
        None => code,
    };
    if flag.len() == 0 {
        label
    } else {
        label.push(' ') + flag
    }
}

/// The country as it is shown, from its code, its name if it has one, and
/// its flag.
pub fn format_country_with(code: &str, name: Option<&str>, flag: &str) -> (text: String)
    ensures
        text@ == country_text(
            code@,
            match name {
                Some(n) => Some(n@),
                None => None,
            },
            flag@,
        ),
{
    let label = match name {
        Some(n) => n,
        None => code,
    };
    let mut text = String::from_str(label);
    if !flag.is_empty() {
        text.push(' ');
        text.append(flag);
    }
    text
}

/// The country with the given code as it is shown: `Name flag`.
pub fn format_country(code: &str) -> (text: String)
    ensures
        text@ == country_text(code@, country_name_of(code@), flag_of(uppercase_of(code@))),
{
    let flag = country_code_to_flag(code);
    let name = country_name(code);
    match &name {
        Some(n) => format_country_with(code, Some(n.as_str()), flag.as_str()),
        None => format_country_with(code, None, flag.as_str()),
    }
}

} // verus!

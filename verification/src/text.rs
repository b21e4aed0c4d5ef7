use vstd::prelude::*;

verus! {

/// Equality of two string slices, character by character.
///
/// Rests on `str`'s own `==`, which compares the two texts.
#[verifier::external_body]
pub(crate) fn str_eq(a: &str, b: &str) -> (r: bool)
    ensures
        r == (a@ == b@),
{
    a == b
}

/// Appends one character to a string.
///
/// Rests on `String::push`, which adds the character at the end.
#[verifier::external_body]
pub(crate) fn push_char(s: &mut String, c: char)
    ensures
        final(s)@ == old(s)@.push(c),
{
    s.push(c)
}

/// The characters of a text, in order.
pub fn to_chars(s: &str) -> (v: Vec<char>)
    ensures
        v@ == s@,
{
    let mut v: Vec<char> = Vec::new();
    for c in it: s.chars()
        invariant
            it.seq() == s@,
            v@ == it.seq().take(it.index() as int),
    {
        v.push(c);
    }
    v
}

/// The text made of the characters `chars[from..to]`.
pub fn from_chars(chars: &Vec<char>, from: usize, to: usize) -> (s: String)
    requires
        from <= to <= chars.len(),
    ensures
        s@ == chars@.subrange(from as int, to as int),
{
    let mut s = String::new();
    let mut i: usize = from;
    while i < to
        invariant
            from <= i <= to <= chars.len(),
            s@ == chars@.subrange(from as int, i as int),
        decreases to - i,
    {
        push_char(&mut s, chars[i]);
        i += 1;
    }
    s
}

/// Appends a text to a string.
pub fn push_str(s: &mut String, t: &str)
    ensures
        final(s)@ == old(s)@ + t@,
{
    for c in it: t.chars()
        invariant
            it.seq() == t@,
            s@ == old(s)@ + it.seq().take(it.index() as int),
    {
        push_char(s, c);
        assert(old(s)@ + t@.take(it.index() as int).push(c) =~= old(s)@ + t@.take(it.index() + 1));
    }
    assert(t@.take(t@.len() as int) =~= t@);
}

/// The character that writes the digit `d`.
pub open spec fn digit_char(d: int) -> char {
    if d == 0 {
        '0'
    } else if d == 1 {
        '1'
    } else if d == 2 {
        '2'
    } else if d == 3 {
        '3'
    } else if d == 4 {
        '4'
    } else if d == 5 {
        '5'
    } else if d == 6 {
        '6'
    } else if d == 7 {
        '7'
    } else if d == 8 {
        '8'
    } else {
        '9'
    }
}

/// A number in decimal digits, without leading zeros.
pub open spec fn decimal(n: nat) -> Seq<char>
    decreases n,
{
    if n < 10 {
        seq![digit_char(n as int)]
    } else {
        decimal(n / 10).push(digit_char((n % 10) as int))
    }
}

/// The character that writes the digit `d`.
pub fn digit(d: u64) -> (c: char)
    requires
        d < 10,
    ensures
        c == digit_char(d as int),
{
    if d == 0 {
        '0'
    } else if d == 1 {
        '1'
    } else if d == 2 {
        '2'
    } else if d == 3 {
        '3'
    } else if d == 4 {
        '4'
    } else if d == 5 {
        '5'
    } else if d == 6 {
        '6'
    } else if d == 7 {
        '7'
    } else if d == 8 {
        '8'
    } else {
        '9'
    }
}

/// Appends `n` in decimal digits.
pub fn push_decimal(s: &mut String, n: u64)
    ensures
        final(s)@ == old(s)@ + decimal(n as nat),
    decreases n,
{
    if n < 10 {
        push_char(s, digit(n));
        assert(s@ =~= old(s)@ + decimal(n as nat));
    } else {
        push_decimal(s, n / 10);
        push_char(s, digit(n % 10));
        assert(s@ =~= old(s)@ + decimal(n as nat));
    }
}

/// Whether `c` is white space: a character with the Unicode property
/// `White_Space`.
pub open spec fn is_whitespace_char(c: char) -> bool {
    let n = c as u32;
    (0x09 <= n <= 0x0D) || n == 0x20 || n == 0x85 || n == 0xA0 || n == 0x1680 || (0x2000 <= n
        <= 0x200A) || n == 0x2028 || n == 0x2029 || n == 0x202F || n == 0x205F || n == 0x3000
}

/// Whether `c` is white space.
///
/// Rests on `char::is_whitespace`, which is true exactly of the characters
/// with the Unicode property `White_Space`.
#[verifier::external_body]
pub(crate) fn is_whitespace(c: char) -> (r: bool)
    ensures
        r == is_whitespace_char(c),
{
    c.is_whitespace()
}

/// The lower-case form of a text, as `str::to_lowercase` gives it.
pub uninterp spec fn lowercase(s: Seq<char>) -> Seq<char>;

/// The lower-case form of `s`.
///
/// Rests on `str::to_lowercase`, whose result depends on the text alone; what
/// it is for each text is left to the Unicode tables that std holds.
#[verifier::external_body]
pub(crate) fn to_lowercase(s: &str) -> (r: String)
    ensures
        r@ == lowercase(s@),
{
    s.to_lowercase()
}

/// Whether `needle` occurs in `hay` as a run of characters.
pub open spec fn occurs_in(needle: Seq<char>, hay: Seq<char>) -> bool {
    exists|i: int|
        0 <= i && i + needle.len() <= hay.len() && #[trigger] hay.subrange(
            i,
            i + needle.len(),
        ) == needle
}

/// Whether `s` begins with `prefix`.
pub open spec fn begins_with(s: Seq<char>, prefix: Seq<char>) -> bool {
    prefix.len() <= s.len() && s.subrange(0, prefix.len() as int) == prefix
}

/// Whether `s` ends with `suffix`.
pub open spec fn ends_with(s: Seq<char>, suffix: Seq<char>) -> bool {
    suffix.len() <= s.len() && s.subrange(s.len() - suffix.len(), s.len() as int) == suffix
}

/// Whether `needle` occurs in `hay`.
///
/// Rests on `str::contains` with a string slice as the pattern, which is true
/// exactly where the pattern is a run of characters of the text.
#[verifier::external_body]
pub(crate) fn str_contains(hay: &str, needle: &str) -> (r: bool)
    ensures
        r == occurs_in(needle@, hay@),
{
    hay.contains(needle)
}

/// Whether `s` begins with `prefix`.
///
/// Rests on `str::starts_with` with a string slice as the pattern, which is
/// true exactly where the text begins with the characters of the pattern.
#[verifier::external_body]
pub(crate) fn str_starts_with(s: &str, prefix: &str) -> (r: bool)
    ensures
        r == begins_with(s@, prefix@),
{
    s.starts_with(prefix)
}

/// Takes the last character off a string.
///
/// Rests on `String::pop`, which removes the last character and returns it,
/// and returns nothing for the empty string.
#[verifier::external_body]
pub(crate) fn pop_char(s: &mut String) -> (r: Option<char>)
    ensures
        old(s)@.len() == 0 ==> r is None && final(s)@ == old(s)@,
        old(s)@.len() > 0 ==> r == Some(old(s)@.last()) && final(s)@ == old(s)@.drop_last(),
{
    s.pop()
}

/// The character that writes `d` as one digit to the base sixteen.
pub open spec fn hex_char(d: int) -> char {
    if d < 10 {
        digit_char(d)
    } else if d == 10 {
        'a'
    } else if d == 11 {
        'b'
    } else if d == 12 {
        'c'
    } else if d == 13 {
        'd'
    } else if d == 14 {
        'e'
    } else {
        'f'
    }
}

/// A number in digits to the base sixteen, in small letters and without
/// leading zeros.
pub open spec fn hex(n: nat) -> Seq<char>
    decreases n,
{
    if n < 16 {
        seq![hex_char(n as int)]
    } else {
        hex(n / 16).push(hex_char((n % 16) as int))
    }
}

/// The character that writes `d` as one digit to the base sixteen.
pub fn hex_digit(d: u128) -> (c: char)
    requires
        d < 16,
    ensures
        c == hex_char(d as int),
{
    if d < 10 {
        digit(d as u64)
    } else if d == 10 {
        'a'
    } else if d == 11 {
        'b'
    } else if d == 12 {
        'c'
    } else if d == 13 {
        'd'
    } else if d == 14 {
        'e'
    } else {
        'f'
    }
}

/// Appends `n` in digits to the base sixteen.
pub fn push_hex(s: &mut String, n: u128)
    ensures
        final(s)@ == old(s)@ + hex(n as nat),
    decreases n,
{
    if n < 16 {
        push_char(s, hex_digit(n));
        assert(s@ =~= old(s)@ + hex(n as nat));
    } else {
        push_hex(s, n / 16);
        push_char(s, hex_digit(n % 16));
        assert(s@ =~= old(s)@ + hex(n as nat));
    }
}

#[verifier::external_type_specification]
#[verifier::external_body]
pub struct ExSystemTime(std::time::SystemTime);

/// The moment that it is, by the clock of the machine.
///
/// Rests on `std::time::SystemTime::now`: the moment differs from call to
/// call, and nothing is said of it.
#[verifier::external_body]
pub(crate) fn system_now() -> (now: std::time::SystemTime) {
    std::time::SystemTime::now()
}

/// The time that has passed at the moment `t` since the first of January
/// 1970; none where `t` lies before that day.
///
/// Rests on `std::time::SystemTime::duration_since` with
/// `std::time::UNIX_EPOCH`; nothing is said of the length of the time.
#[verifier::external_body]
pub(crate) fn since_epoch(t: &std::time::SystemTime) -> (passed: Option<std::time::Duration>) {
    t.duration_since(std::time::UNIX_EPOCH).ok()
}

/// The length of the time `d` in nanoseconds.
///
/// Rests on `std::time::Duration::as_nanos`; `Duration` has no view here, so
/// nothing is said of the number.
#[verifier::external_body]
pub(crate) fn duration_nanos(d: &std::time::Duration) -> (nanos: u128) {
    d.as_nanos()
}

/// The nanoseconds that have passed since the first of January 1970, by the
/// clock of the machine; 0 where the clock stands before that day.
pub(crate) fn nanos_since_epoch() -> (nanos: u128) {
    let now = system_now();
    match since_epoch(&now) {
        Some(passed) => duration_nanos(&passed),
        None => 0,
    }
}

/// The greatest number of seconds since the first of January 1970 that is
/// handed to chrono: far below the last day that it can hold.
pub open spec fn max_clock_secs() -> int {
    1_000_000_000_000
}

/// The seconds that have passed since the first of January 1970, by the
/// clock of the machine, and no more than [`max_clock_secs`].
pub(crate) fn clock_secs() -> (secs: i64)
    ensures
        0 <= secs <= max_clock_secs(),
{
    let secs = nanos_since_epoch() / 1_000_000_000;
    if secs > 1_000_000_000_000 {
        1_000_000_000_000
    } else {
        secs as i64
    }
}

/// The day that it is in the time zone of the machine, `secs` seconds after
/// the first of January 1970.
///
/// Rests on `chrono::DateTime::from_timestamp`, `with_timezone` with
/// `chrono::Local`, and `date_naive`: the day depends on the time zone of the
/// machine, and is always a day of the calendar.
#[verifier::external_body]
pub(crate) fn local_day_at(secs: i64) -> (r: Option<crate::date::Date>)
    requires
        0 <= secs <= max_clock_secs(),
    ensures
        r matches Some(day) ==> day.is_valid(),
{
    let d = chrono::DateTime::from_timestamp(secs, 0)?.with_timezone(&chrono::Local).date_naive();
    Some(
        crate::date::Date {
            year: chrono::Datelike::year(&d),
            month: chrono::Datelike::month(&d),
            day: chrono::Datelike::day(&d),
        },
    )
}

/// The time of day in hours and minutes in the time zone of the machine,
/// `secs` seconds after the first of January 1970.
///
/// Rests on `chrono::DateTime::from_timestamp`, `with_timezone` with
/// `chrono::Local`, and `format` with the pattern `%H:%M`: the text depends
/// on the time zone of the machine.
#[verifier::external_body]
pub(crate) fn local_clock_at(secs: i64) -> (r: Option<String>)
    requires
        0 <= secs <= max_clock_secs(),
{
    Some(
        chrono::DateTime::from_timestamp(secs, 0)?.with_timezone(&chrono::Local).format(
            "%H:%M",
        ).to_string(),
    )
}

/// The day `secs` seconds after the first of January 1970, in the time zone
/// of the machine; the first of January 1970 where chrono gives none.
pub(crate) fn day_at(secs: i64) -> (day: crate::date::Date)
    requires
        0 <= secs <= max_clock_secs(),
    ensures
        day.is_valid(),
{
    match local_day_at(secs) {
        Some(day) => day,
        None => crate::date::Date { year: 1970, month: 1, day: 1 },
    }
}

/// The time of day `secs` seconds after the first of January 1970, in the
/// time zone of the machine; an empty text where chrono gives none.
pub(crate) fn clock_at(secs: i64) -> (time: String)
    requires
        0 <= secs <= max_clock_secs(),
{
    match local_clock_at(secs) {
        Some(time) => time,
        None => String::new(),
    }
}

/// The day that it is, by the clock of the machine.
pub(crate) fn today() -> (day: crate::date::Date)
    ensures
        day.is_valid(),
{
    day_at(clock_secs())
}

} // verus!

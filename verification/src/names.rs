//! Day and month names as bytes, and the lookups from names back to values.
use vstd::prelude::*;

use crate::text::ascii_chars;
use crate::types::{DayName, DayNameTok};

verus! {

/// The three-letter abbreviation used by IMF-fixdate and asctime, e.g. `Mon`.
pub open spec fn short_name(d: DayName) -> Seq<u8> {
    match d {
        DayName::Mon => seq!['M' as u8, 'o' as u8, 'n' as u8],
        DayName::Tue => seq!['T' as u8, 'u' as u8, 'e' as u8],
        DayName::Wed => seq!['W' as u8, 'e' as u8, 'd' as u8],
        DayName::Thu => seq!['T' as u8, 'h' as u8, 'u' as u8],
        DayName::Fri => seq!['F' as u8, 'r' as u8, 'i' as u8],
        DayName::Sat => seq!['S' as u8, 'a' as u8, 't' as u8],
        DayName::Sun => seq!['S' as u8, 'u' as u8, 'n' as u8],
    }
}

/// The full name used by RFC 850 dates, e.g. `Monday`: the abbreviation
/// followed by the rest of the name.
pub open spec fn long_name(d: DayName) -> Seq<u8> {
    short_name(d) + match d {
        DayName::Mon => seq!['d' as u8, 'a' as u8, 'y' as u8],
        DayName::Tue => seq!['s' as u8, 'd' as u8, 'a' as u8, 'y' as u8],
        DayName::Wed => seq!['n' as u8, 'e' as u8, 's' as u8, 'd' as u8, 'a' as u8, 'y' as u8],
        DayName::Thu => seq!['r' as u8, 's' as u8, 'd' as u8, 'a' as u8, 'y' as u8],
        DayName::Fri => seq!['d' as u8, 'a' as u8, 'y' as u8],
        DayName::Sat => seq!['u' as u8, 'r' as u8, 'd' as u8, 'a' as u8, 'y' as u8],
        DayName::Sun => seq!['d' as u8, 'a' as u8, 'y' as u8],
    }
}

/// The three-letter month abbreviation of month 1–12, January first.
pub open spec fn month_text(m: int) -> Seq<u8> {
    if m == 1 {
        seq!['J' as u8, 'a' as u8, 'n' as u8]
    } else if m == 2 {
        seq!['F' as u8, 'e' as u8, 'b' as u8]
    } else if m == 3 {
        seq!['M' as u8, 'a' as u8, 'r' as u8]
    } else if m == 4 {
        seq!['A' as u8, 'p' as u8, 'r' as u8]
    } else if m == 5 {
        seq!['M' as u8, 'a' as u8, 'y' as u8]
    } else if m == 6 {
        seq!['J' as u8, 'u' as u8, 'n' as u8]
    } else if m == 7 {
        seq!['J' as u8, 'u' as u8, 'l' as u8]
    } else if m == 8 {
        seq!['A' as u8, 'u' as u8, 'g' as u8]
    } else if m == 9 {
        seq!['S' as u8, 'e' as u8, 'p' as u8]
    } else if m == 10 {
        seq!['O' as u8, 'c' as u8, 't' as u8]
    } else if m == 11 {
        seq!['N' as u8, 'o' as u8, 'v' as u8]
    } else {
        seq!['D' as u8, 'e' as u8, 'c' as u8]
    }
}

/// The days of the week in the order the day-name lookup tries them,
/// Monday first.
pub open spec fn day_at(i: int) -> DayName {
    if i == 0 {
        DayName::Mon
    } else if i == 1 {
        DayName::Tue
    } else if i == 2 {
        DayName::Wed
    } else if i == 3 {
        DayName::Thu
    } else if i == 4 {
        DayName::Fri
    } else if i == 5 {
        DayName::Sat
    } else {
        DayName::Sun
    }
}

/// The first of the days `i`, `i + 1`, …, Sunday whose abbreviation or full
/// name is `t` (the abbreviation tried first).
pub open spec fn day_search(t: Seq<u8>, i: int) -> Option<DayNameTok>
    decreases 7 - i,
{
    if i < 0 || i >= 7 {
        None
    } else if t == short_name(day_at(i)) {
        Some(DayNameTok::Short(day_at(i)))
    } else if t == long_name(day_at(i)) {
        Some(DayNameTok::Long(day_at(i)))
    } else {
        day_search(t, i + 1)
    }
}

/// The day name that the token `t` spells, if any.
pub open spec fn dayname_token(t: Seq<u8>) -> Option<DayNameTok> {
    day_search(t, 0)
}

/// The first of the months `m`, `m + 1`, …, 12 whose abbreviation is `t`.
pub open spec fn month_search(t: Seq<u8>, m: int) -> Option<int>
    decreases 13 - m,
{
    if m < 1 || m > 12 {
        None
    } else if t == month_text(m) {
        Some(m)
    } else {
        month_search(t, m + 1)
    }
}

/// The number (1–12) of the month whose abbreviation is `t`, if any.
pub open spec fn month_number(t: Seq<u8>) -> Option<int> {
    month_search(t, 1)
}

/// The day of the week at position `i` of the lookup order.
pub fn day_at_index(i: usize) -> (d: DayName)
    requires
        i < 7,
    ensures
        d == day_at(i as int),
{
    if i == 0 {
        DayName::Mon
    } else if i == 1 {
        DayName::Tue
    } else if i == 2 {
        DayName::Wed
    } else if i == 3 {
        DayName::Thu
    } else if i == 4 {
        DayName::Fri
    } else if i == 5 {
        DayName::Sat
    } else {
        DayName::Sun
    }
}

impl DayName {
    /// The three-letter abbreviation, e.g. `Mon`.
    pub fn short(self) -> (r: &'static [u8])
        ensures
            r@ == short_name(self),
    {
        match self {
            DayName::Mon => &['M' as u8, 'o' as u8, 'n' as u8],
            DayName::Tue => &['T' as u8, 'u' as u8, 'e' as u8],
            DayName::Wed => &['W' as u8, 'e' as u8, 'd' as u8],
            DayName::Thu => &['T' as u8, 'h' as u8, 'u' as u8],
            DayName::Fri => &['F' as u8, 'r' as u8, 'i' as u8],
            DayName::Sat => &['S' as u8, 'a' as u8, 't' as u8],
            DayName::Sun => &['S' as u8, 'u' as u8, 'n' as u8],
        }
    }

    /// The full name, e.g. `Monday`.
    pub fn long(self) -> (r: &'static [u8])
        ensures
            r@ == long_name(self),
    {
        let r: &'static [u8] = match self {
            DayName::Mon => &['M' as u8, 'o' as u8, 'n' as u8, 'd' as u8, 'a' as u8, 'y' as u8],
            DayName::Tue => &[
                'T' as u8,
                'u' as u8,
                'e' as u8,
                's' as u8,
                'd' as u8,
                'a' as u8,
                'y' as u8,
            ],
            DayName::Wed => &[
                'W' as u8,
                'e' as u8,
                'd' as u8,
                'n' as u8,
                'e' as u8,
                's' as u8,
                'd' as u8,
                'a' as u8,
                'y' as u8,
            ],
            DayName::Thu => &[
                'T' as u8,
                'h' as u8,
                'u' as u8,
                'r' as u8,
                's' as u8,
                'd' as u8,
                'a' as u8,
                'y' as u8,
            ],
            DayName::Fri => &['F' as u8, 'r' as u8, 'i' as u8, 'd' as u8, 'a' as u8, 'y' as u8],
            DayName::Sat => &[
                'S' as u8,
                'a' as u8,
                't' as u8,
                'u' as u8,
                'r' as u8,
                'd' as u8,
                'a' as u8,
                'y' as u8,
            ],
            DayName::Sun => &['S' as u8, 'u' as u8, 'n' as u8, 'd' as u8, 'a' as u8, 'y' as u8],
        };
        assert(r@ =~= long_name(self));
        r
    }
}

/// The three-letter abbreviation of month 1–12, e.g. `Jan`.
pub fn month_name(month: i32) -> (r: &'static [u8])
    requires
        1 <= month <= 12,
    ensures
        r@ == month_text(month as int),
{
    if month == 1 {
        &['J' as u8, 'a' as u8, 'n' as u8]
    } else if month == 2 {
        &['F' as u8, 'e' as u8, 'b' as u8]
    } else if month == 3 {
        &['M' as u8, 'a' as u8, 'r' as u8]
    } else if month == 4 {
        &['A' as u8, 'p' as u8, 'r' as u8]
    } else if month == 5 {
        &['M' as u8, 'a' as u8, 'y' as u8]
    } else if month == 6 {
        &['J' as u8, 'u' as u8, 'n' as u8]
    } else if month == 7 {
        &['J' as u8, 'u' as u8, 'l' as u8]
    } else if month == 8 {
        &['A' as u8, 'u' as u8, 'g' as u8]
    } else if month == 9 {
        &['S' as u8, 'e' as u8, 'p' as u8]
    } else if month == 10 {
        &['O' as u8, 'c' as u8, 't' as u8]
    } else if month == 11 {
        &['N' as u8, 'o' as u8, 'v' as u8]
    } else {
        &['D' as u8, 'e' as u8, 'c' as u8]
    }
}

/// Whether the bytes `s[start..end]` are exactly `name`.
pub fn range_eq(s: &[u8], start: usize, end: usize, name: &[u8]) -> (r: bool)
    requires
        start <= end <= s@.len(),
    ensures
        r == (s@.subrange(start as int, end as int) == name@),
{
    if end - start != name.len() {
        return false;
    }
    let mut i: usize = 0;
    while i < name.len()
        invariant
            start <= end <= s@.len(),
            end - start == name@.len(),
            0 <= i <= name@.len(),
            forall|j: int| 0 <= j < i ==> s@[start + j] == name@[j],
        decreases name@.len() - i,
    {
        if s[start + i] != name[i] {
            assert(s@.subrange(start as int, end as int)[i as int] != name@[i as int]);
            return false;
        }
        i = i + 1;
    }
    assert(s@.subrange(start as int, end as int) =~= name@);
    true
}

/// The day name spelled by `s[start..end]`, trying the days in order,
/// the abbreviation before the full name.
pub fn lookup_dayname(s: &[u8], start: usize, end: usize) -> (r: Option<DayNameTok>)
    requires
        start <= end <= s@.len(),
    ensures
        r == dayname_token(s@.subrange(start as int, end as int)),
{
    let ghost t = s@.subrange(start as int, end as int);
    let mut i: usize = 0;
    while i < 7
        invariant
            start <= end <= s@.len(),
            t == s@.subrange(start as int, end as int),
            0 <= i <= 7,
            dayname_token(t) == day_search(t, i as int),
        decreases 7 - i,
    {
        let d = day_at_index(i);
        if range_eq(s, start, end, d.short()) {
            return Some(DayNameTok::Short(d));
        }
        if range_eq(s, start, end, d.long()) {
            return Some(DayNameTok::Long(d));
        }
        i = i + 1;
    }
    None
}

/// The number of the month spelled by the three bytes at `start`.
pub fn lookup_month(s: &[u8], start: usize) -> (r: Option<i32>)
    requires
        start + 3 <= s@.len(),
    ensures
        r matches Some(m) ==> month_number(s@.subrange(start as int, start + 3)) == Some(m as int),
        r is None ==> month_number(s@.subrange(start as int, start + 3)) is None,
{
    let ghost t = s@.subrange(start as int, start + 3);
    let len = s.len();
    let end: usize = start + 3;
    let mut m: i32 = 1;
    while m <= 12
        invariant
            end == start + 3,
            end <= s@.len(),
            t == s@.subrange(start as int, start + 3),
            1 <= m <= 13,
            month_number(t) == month_search(t, m as int),
        decreases 13 - m,
    {
        if range_eq(s, start, end, month_name(m)) {
            return Some(m);
        }
        m = m + 1;
    }
    None
}

/// The English month abbreviations, January first.
pub open spec fn month_abbreviations() -> Seq<Seq<char>> {
    seq![
        "Jan"@, "Feb"@, "Mar"@, "Apr"@, "May"@, "Jun"@, "Jul"@, "Aug"@, "Sep"@, "Oct"@, "Nov"@,
        "Dec"@,
    ]
}

/// Month `m` (1–12) is written as the `m`-th of the English abbreviations
/// `Jan`, `Feb`, …, `Dec`.
pub proof fn lemma_month_names(m: int)
    requires
        1 <= m <= 12,
    ensures
        ascii_chars(month_text(m)) == month_abbreviations()[m - 1],
{
    reveal_strlit("Jan");
    reveal_strlit("Feb");
    reveal_strlit("Mar");
    reveal_strlit("Apr");
    reveal_strlit("May");
    reveal_strlit("Jun");
    reveal_strlit("Jul");
    reveal_strlit("Aug");
    reveal_strlit("Sep");
    reveal_strlit("Oct");
    reveal_strlit("Nov");
    reveal_strlit("Dec");
    assert(ascii_chars(month_text(m)) =~= month_abbreviations()[m - 1]);
}

/// The English names of the days of the week: abbreviated and in full.
pub open spec fn english_day_name(d: DayName) -> (Seq<char>, Seq<char>) {
    match d {
        DayName::Mon => ("Mon"@, "Monday"@),
        DayName::Tue => ("Tue"@, "Tuesday"@),
        DayName::Wed => ("Wed"@, "Wednesday"@),
        DayName::Thu => ("Thu"@, "Thursday"@),
        DayName::Fri => ("Fri"@, "Friday"@),
        DayName::Sat => ("Sat"@, "Saturday"@),
        DayName::Sun => ("Sun"@, "Sunday"@),
    }
}

/// Each day is written with its English abbreviation (IMF-fixdate,
/// asctime) or its full English name (RFC 850).
pub proof fn lemma_day_names(d: DayName)
    ensures
        ascii_chars(short_name(d)) == english_day_name(d).0,
        ascii_chars(long_name(d)) == english_day_name(d).1,
{
    reveal_strlit("Mon");
    reveal_strlit("Tue");
    reveal_strlit("Wed");
    reveal_strlit("Thu");
    reveal_strlit("Fri");
    reveal_strlit("Sat");
    reveal_strlit("Sun");
    reveal_strlit("Monday");
    reveal_strlit("Tuesday");
    reveal_strlit("Wednesday");
    reveal_strlit("Thursday");
    reveal_strlit("Friday");
    reveal_strlit("Saturday");
    reveal_strlit("Sunday");
    assert(ascii_chars(short_name(d)) =~= english_day_name(d).0);
    assert(ascii_chars(long_name(d)) =~= english_day_name(d).1);
}

/// The days of the week numbered as chrono numbers them: Monday = 0,
/// Tuesday = 1, …, Sunday = 6.
pub proof fn lemma_weekday_numbering(i: int)
    requires
        0 <= i < 7,
    ensures
        day_at(i) == seq![
            DayName::Mon,
            DayName::Tue,
            DayName::Wed,
            DayName::Thu,
            DayName::Fri,
            DayName::Sat,
            DayName::Sun,
        ][i],
{
}

} // verus!

//! Where the laptop is: the system time zone and the coordinates that the
//! tz database gives for it.

use crate::text::{
    all_digits, chars_of, decimal_value, find, find_in_window, is_digit, lemma_find_from,
    starts_with, strip_all, window_is,
};
use vstd::prelude::*;

verus! {

/// The zone named by the target of the `/etc/localtime` link: what follows
/// `zoneinfo/`, without leading `posix/` directories.
pub open spec fn zone_of_link(target: Seq<char>) -> Option<Seq<char>> {
    match find(target, "zoneinfo/"@) {
        Some(i) => Some(strip_all(target.skip(i + 9), "posix/"@)),
        None => None,
    }
}

/// Length of the window `v[lo..hi]` once leading copies of `lit` are removed,
/// as the start index of what remains.
fn strip_all_window(v: &Vec<char>, lo: usize, hi: usize, lit: &str) -> (r: usize)
    requires
        lo <= hi <= v@.len(),
    ensures
        lo <= r <= hi,
        v@.subrange(r as int, hi as int) == strip_all(v@.subrange(lo as int, hi as int), lit@),
{
    let n = chars_of(lit).len();
    if n == 0 {
        return lo;
    }
    let mut a = lo;
    while n <= hi - a && window_is(v, a, a + n, lit)
        invariant
            lo <= a <= hi <= v@.len(),
            n == lit@.len(),
            n > 0,
            strip_all(v@.subrange(lo as int, hi as int), lit@) == strip_all(
                v@.subrange(a as int, hi as int),
                lit@,
            ),
        decreases hi - a,
    {
        assert(v@.subrange(a as int, hi as int).take(n as int) =~= v@.subrange(
            a as int,
            (a + n) as int,
        ));
        assert(v@.subrange(a as int, hi as int).skip(n as int) =~= v@.subrange(
            (a + n) as int,
            hi as int,
        ));
        a = a + n;
    }
    proof {
        if n <= hi - a {
            assert(v@.subrange(a as int, hi as int).take(n as int) =~= v@.subrange(
                a as int,
                (a + n) as int,
            ));
        }
    }
    a
}

/// The zone named by the target of the `/etc/localtime` link.
pub fn zone_from_link(target: &str) -> (r: Option<String>)
    ensures
        r matches Some(z) ==> zone_of_link(target@) == Some(z@),
        r is None ==> zone_of_link(target@) is None,
{
    proof {
        reveal_strlit("zoneinfo/");
    }
    let v = chars_of(target);
    let n = v.len();
    assert(v@.subrange(0, n as int) =~= target@);
    match find_in_window(&v, 0, n, "zoneinfo/") {
        None => None,
        Some(i) => {
            let start = strip_all_window(&v, i + 9, n, "posix/");
            assert(v@.subrange(i + 9, n as int) =~= target@.skip(i + 9));
            Some(target.substring_char(start, n).to_owned())
        },
    }
}

/// The zone named by a `TZ` value: the value without leading colons, when it
/// names a region (contains a `/`).
pub open spec fn zone_of_tz(tz: Seq<char>) -> Option<Seq<char>> {
    let zone = strip_all(tz, ":"@);
    if find(zone, "/"@) is Some {
        Some(zone)
    } else {
        None
    }
}

pub fn zone_from_tz(tz: &str) -> (r: Option<String>)
    ensures
        r matches Some(z) ==> zone_of_tz(tz@) == Some(z@),
        r is None ==> zone_of_tz(tz@) is None,
{
    let v = chars_of(tz);
    let n = v.len();
    assert(v@.subrange(0, n as int) =~= tz@);
    let start = strip_all_window(&v, 0, n, ":");
    match find_in_window(&v, start, n, "/") {
        Some(_) => Some(tz.substring_char(start, n).to_owned()),
        None => None,
    }
}

/// An ISO 6709 angle: sign, whole degrees, minutes and seconds.
#[derive(Debug, Clone, Copy, PartialEq, Eq, Structural)]
pub struct Angle {
    pub negative: bool,
    pub degrees: u32,
    pub minutes: u32,
    pub seconds: u32,
}

/// A position as the tz database writes it (`+DDMM+DDDMM` or
/// `+DDMMSS+DDDMMSS`).
#[derive(Debug, Clone, Copy, PartialEq, Eq, Structural)]
pub struct Iso6709 {
    pub latitude: Angle,
    pub longitude: Angle,
}

/// A signed angle: `+` or `-`, then `degree_digits` digits of degrees, two
/// of minutes and optionally two of seconds; any digits after those are
/// ignored. Only digits may follow the sign.
pub open spec fn angle_of(text: Seq<char>, degree_digits: nat) -> Option<Angle> {
    if text.len() == 0 || !(text[0] == '+' || text[0] == '-') {
        None
    } else {
        let digits = text.skip(1);
        if digits.len() < degree_digits + 2 || !all_digits(digits) {
            None
        } else {
            Some(
                Angle {
                    negative: text[0] == '-',
                    degrees: decimal_value(digits.take(degree_digits as int)) as u32,
                    minutes: decimal_value(
                        digits.subrange(degree_digits as int, degree_digits + 2int),
                    ) as u32,
                    seconds: if digits.len() >= degree_digits + 4 {
                        decimal_value(digits.subrange(degree_digits + 2int, degree_digits + 4int)) as u32
                    } else {
                        0
                    },
                },
            )
        }
    }
}

/// The first index at or after `k` holding a sign character.
pub open spec fn sign_from(s: Seq<char>, k: int) -> Option<int>
    decreases s.len() - k,
{
    if k < 0 || k >= s.len() {
        None
    } else if s[k] == '+' || s[k] == '-' {
        Some(k)
    } else {
        sign_from(s, k + 1)
    }
}

/// The coordinates of an ISO 6709 field: the latitude runs up to the second
/// sign, with two degree digits; the longitude has three.
pub open spec fn coordinates_of(text: Seq<char>) -> Option<Iso6709> {
    match sign_from(text, 1) {
        None => None,
        Some(split) => match (angle_of(text.take(split), 2), angle_of(text.skip(split), 3)) {
            (Some(latitude), Some(longitude)) => Some(Iso6709 { latitude, longitude }),
            _ => None,
        },
    }
}

/// Whether a coordinate field can be looked at at all: it must have a
/// first character, and that character must be a single byte (the field
/// is sliced after its first byte).
pub open spec fn field_sliceable(text: Seq<char>) -> bool {
    text.len() > 0 && (text[0] as u32) < 0x80
}

/// Value of the decimal digits in `v[lo..hi]`, at most four of them.
fn small_decimal(v: &Vec<char>, lo: usize, hi: usize) -> (r: u32)
    requires
        lo <= hi <= v@.len(),
        hi - lo <= 4,
        all_digits(v@.subrange(lo as int, hi as int)),
    ensures
        r == decimal_value(v@.subrange(lo as int, hi as int)),
{
    let mut value: u32 = 0;
    let mut i = lo;
    while i < hi
        invariant
            lo <= i <= hi <= v@.len(),
            hi - lo <= 4,
            all_digits(v@.subrange(lo as int, hi as int)),
            value == decimal_value(v@.subrange(lo as int, i as int)),
            value < 10000,
            i - lo <= 4,
            value < if i - lo == 0 {
                1int
            } else if i - lo == 1 {
                10int
            } else if i - lo == 2 {
                100int
            } else if i - lo == 3 {
                1000int
            } else {
                10000int
            },
        decreases hi - i,
    {
        let c = v[i];
        assert(v@.subrange(lo as int, hi as int)[i - lo] == c);
        assert(v@.subrange(lo as int, i + 1).drop_last() =~= v@.subrange(lo as int, i as int));
        value = value * 10 + (c as u32 - '0' as u32);
        i = i + 1;
    }
    value
}

/// Parses the window `v[lo..hi]` as a signed angle.
fn angle_window(v: &Vec<char>, lo: usize, hi: usize, degree_digits: usize) -> (r: Option<Angle>)
    requires
        lo <= hi <= v@.len(),
        degree_digits <= 3,
    ensures
        r == angle_of(v@.subrange(lo as int, hi as int), degree_digits as nat),
{
    let ghost text = v@.subrange(lo as int, hi as int);
    if lo == hi || !(v[lo] == '+' || v[lo] == '-') {
        return None;
    }
    let d = lo + 1;
    let ghost digits = text.skip(1);
    assert(digits =~= v@.subrange(d as int, hi as int));
    if hi - d < degree_digits + 2 {
        return None;
    }
    let mut i = d;
    while i < hi
        invariant
            d <= i <= hi <= v@.len(),
            d == lo + 1,
            digits == v@.subrange(d as int, hi as int),
            text == v@.subrange(lo as int, hi as int),
            digits == text.skip(1),
            text.len() > 0,
            text[0] == '+' || text[0] == '-',
            digits.len() >= degree_digits + 2,
            forall|j: int| d <= j < i ==> is_digit(#[trigger] v@[j]),
        decreases hi - i,
    {
        if !('0' <= v[i] && v[i] <= '9') {
            assert(!is_digit(digits[i - d]));
            return None;
        }
        i = i + 1;
    }
    assert(all_digits(digits));
    let m = d + degree_digits;
    assert(digits.take(degree_digits as int) =~= v@.subrange(d as int, m as int));
    assert(digits.subrange(degree_digits as int, degree_digits + 2) =~= v@.subrange(
        m as int,
        m + 2,
    ));
    let degrees = small_decimal(v, d, m);
    let minutes = small_decimal(v, m, m + 2);
    let seconds = if hi - d >= degree_digits + 4 {
        assert(digits.subrange(degree_digits + 2, degree_digits + 4) =~= v@.subrange(
            m + 2,
            m + 4,
        ));
        small_decimal(v, m + 2, m + 4)
    } else {
        0
    };
    Some(Angle { negative: v[lo] == '-', degrees, minutes, seconds })
}

/// Parses the window `v[lo..hi]` as ISO 6709 coordinates.
fn coordinates_window(v: &Vec<char>, lo: usize, hi: usize) -> (r: Option<Iso6709>)
    requires
        lo < hi <= v@.len(),
    ensures
        r == coordinates_of(v@.subrange(lo as int, hi as int)),
{
    let ghost text = v@.subrange(lo as int, hi as int);
    let mut k = lo + 1;
    while k < hi && !(v[k] == '+' || v[k] == '-')
        invariant
            lo < k <= hi <= v@.len(),
            text == v@.subrange(lo as int, hi as int),
            sign_from(text, 1) == sign_from(text, k - lo),
        decreases hi - k,
    {
        k = k + 1;
    }
    if k == hi {
        return None;
    }
    assert(text.take(k - lo) =~= v@.subrange(lo as int, k as int));
    assert(text.skip(k - lo) =~= v@.subrange(k as int, hi as int));
    let latitude = angle_window(v, lo, k, 2);
    let longitude = angle_window(v, k, hi, 3);
    match (latitude, longitude) {
        (Some(latitude), Some(longitude)) => Some(Iso6709 { latitude, longitude }),
        _ => None,
    }
}

/// `str::lines`: the line without its final carriage return, if the line
/// ended in a newline.
pub open spec fn strip_cr(line: Seq<char>) -> Seq<char> {
    if line.len() > 0 && line.last() == '\r' {
        line.drop_last()
    } else {
        line
    }
}

/// `str::lines`: the lines of `s`, split at newlines; a carriage return
/// before a newline is dropped, and a final newline starts no further line.
pub open spec fn lines_of(s: Seq<char>) -> Seq<Seq<char>>
    decreases s.len(),
{
    if s.len() == 0 {
        seq![]
    } else {
        match find(s, "\n"@) {
            Some(i) => {
                proof {
                    reveal_strlit("\n");
                    lemma_find_from(s, "\n"@, 0);
                }
                seq![strip_cr(s.take(i))] + lines_of(s.skip(i + 1))
            },
            None => seq![s],
        }
    }
}

/// `str::split('\t')`: the tab-separated fields of a line.
pub open spec fn fields_of(line: Seq<char>) -> Seq<Seq<char>>
    decreases line.len(),
{
    match find(line, "\t"@) {
        Some(i) => {
            proof {
                reveal_strlit("\t");
                lemma_find_from(line, "\t"@, 0);
            }
            seq![line.take(i)] + fields_of(line.skip(i + 1))
        },
        None => seq![line],
    }
}

/// A table line that names `zone`: not a comment, with the zone in its third
/// field.
pub open spec fn names_zone(line: Seq<char>, zone: Seq<char>) -> bool {
    &&& !(line.len() > 0 && line[0] == '#')
    &&& fields_of(line).len() >= 3
    &&& fields_of(line)[2] == zone
}

/// The coordinates of the first line naming `zone` whose coordinates parse.
pub open spec fn lookup_lines(lines: Seq<Seq<char>>, zone: Seq<char>) -> Option<Iso6709>
    decreases lines.len(),
{
    if lines.len() == 0 {
        None
    } else {
        let line = lines[0];
        if names_zone(line, zone) && coordinates_of(fields_of(line)[1]) is Some {
            coordinates_of(fields_of(line)[1])
        } else {
            lookup_lines(lines.drop_first(), zone)
        }
    }
}

/// Every line naming `zone` that the search reaches has a coordinate field
/// that can be sliced.
pub open spec fn lines_searchable(lines: Seq<Seq<char>>, zone: Seq<char>) -> bool
    decreases lines.len(),
{
    if lines.len() == 0 {
        true
    } else {
        let line = lines[0];
        if names_zone(line, zone) {
            field_sliceable(fields_of(line)[1]) && (coordinates_of(fields_of(line)[1]) is Some
                || lines_searchable(lines.drop_first(), zone))
        } else {
            lines_searchable(lines.drop_first(), zone)
        }
    }
}

/// What a single table line says about `zone`: whether it names the zone,
/// whether its coordinate field can be sliced, and the coordinates it gives.
fn line_match(v: &Vec<char>, a: usize, b: usize, zone: &str) -> (r: (bool, bool, Option<Iso6709>))
    requires
        a <= b <= v@.len(),
    ensures
        ({
            let line = v@.subrange(a as int, b as int);
            &&& r.0 == names_zone(line, zone@)
            &&& r.0 ==> r.1 == field_sliceable(fields_of(line)[1])
            &&& r.0 ==> r.2 == coordinates_of(fields_of(line)[1])
        }),
{
    proof {
        reveal_strlit("\t");
    }
    let ghost line = v@.subrange(a as int, b as int);
    if a < b && v[a] == '#' {
        return (false, false, None);
    }
    let t1 = match find_in_window(v, a, b, "\t") {
        Some(t) => t,
        None => {
            assert(fields_of(line) =~= seq![line]);
            return (false, false, None);
        },
    };
    let ghost rest1 = line.skip(t1 - a + 1);
    assert(rest1 =~= v@.subrange(t1 + 1, b as int));
    assert(line.take(t1 - a) =~= v@.subrange(a as int, t1 as int));
    assert(fields_of(line) == seq![line.take(t1 - a)] + fields_of(rest1));
    let t2 = match find_in_window(v, t1 + 1, b, "\t") {
        Some(t) => t,
        None => {
            assert(fields_of(rest1) =~= seq![rest1]);
            assert(fields_of(line).len() == 2);
            return (false, false, None);
        },
    };
    let ghost rest2 = rest1.skip(t2 - t1);
    assert(rest2 =~= v@.subrange(t2 + 1, b as int));
    assert(rest1.take(t2 - t1 - 1) =~= v@.subrange(t1 + 1, t2 as int));
    assert(fields_of(rest1) == seq![rest1.take(t2 - t1 - 1)] + fields_of(rest2));
    let end = match find_in_window(v, t2 + 1, b, "\t") {
        Some(t) => t,
        None => b,
    };
    proof {
        match find(rest2, "\t"@) {
            Some(i) => {
                assert(rest2.take(i) =~= v@.subrange(t2 + 1, end as int));
                assert(fields_of(rest2) == seq![rest2.take(i)] + fields_of(rest2.skip(i + 1)));
            },
            None => {
                assert(fields_of(rest2) =~= seq![rest2]);
            },
        }
    }
    assert(fields_of(line).len() >= 3);
    assert(fields_of(line)[1] == v@.subrange(t1 + 1, t2 as int));
    assert(fields_of(line)[2] == v@.subrange(t2 + 1, end as int));
    if !window_is(v, t2 + 1, end, zone) {
        return (false, false, None);
    }
    if t1 + 1 == t2 {
        assert(sign_from(v@.subrange(t1 + 1, t2 as int), 1) is None);
        return (true, false, None);
    }
    let sliceable = (v[t1 + 1] as u32) < 0x80;
    (true, sliceable, coordinates_window(v, t1 + 1, t2))
}

/// The first line of `v` from `pos` on, and where the next one starts.
proof fn lemma_line_step(v: Seq<char>, pos: int, line_end: int, next: int)
    requires
        0 <= pos < v.len(),
        match find(v.skip(pos), "\n"@) {
            Some(i) => {
                &&& line_end == (if i > 0 && v[pos + i - 1] == '\r' {
                    pos + i - 1
                } else {
                    pos + i
                })
                &&& next == pos + i + 1
            },
            None => line_end == v.len() && next == v.len(),
        },
    ensures
        pos <= line_end <= v.len(),
        pos < next <= v.len(),
        lines_of(v.skip(pos)).len() > 0,
        lines_of(v.skip(pos))[0] == v.subrange(pos, line_end),
        lines_of(v.skip(pos)).drop_first() == lines_of(v.skip(next)),
{
    reveal_strlit("\n");
    let s = v.skip(pos);
    lemma_find_from(s, "\n"@, 0);
    match find(s, "\n"@) {
        Some(i) => {
            assert(s.take(i) =~= v.subrange(pos, pos + i));
            assert(v.subrange(pos, line_end) =~= strip_cr(s.take(i)));
            assert(s.skip(i + 1) =~= v.skip(next));
            assert(lines_of(s) == seq![strip_cr(s.take(i))] + lines_of(s.skip(i + 1)));
        },
        None => {
            assert(v.subrange(pos, line_end) =~= s);
            assert(v.skip(next) =~= Seq::<char>::empty());
            assert(lines_of(s) == seq![s]);
            assert(lines_of(Seq::<char>::empty()) =~= seq![]);
        },
    }
    assert(lines_of(s).drop_first() =~= lines_of(v.skip(next)));
}

/// Walks the lines of `table`: the coordinates found for `zone` and whether
/// every line the search reaches can be searched.
fn scan_table(table: &str, zone: &str) -> (r: (Option<Iso6709>, bool))
    ensures
        r.0 == lookup_lines(lines_of(table@), zone@),
        r.1 == lines_searchable(lines_of(table@), zone@),
{
    let v = chars_of(table);
    let n = v.len();
    let mut pos: usize = 0;
    let mut blocked = false;
    assert(v@.skip(0) =~= table@);
    while pos < n
        invariant
            pos <= n == v@.len(),
            v@ == table@,
            lookup_lines(lines_of(table@), zone@) == lookup_lines(
                lines_of(v@.skip(pos as int)),
                zone@,
            ),
            lines_searchable(lines_of(table@), zone@) == (!blocked && lines_searchable(
                lines_of(v@.skip(pos as int)),
                zone@,
            )),
        decreases n - pos,
    {
        proof {
            reveal_strlit("\n");
        }
        let ghost s = v@.skip(pos as int);
        assert(v@.subrange(pos as int, n as int) =~= s);
        let newline = find_in_window(&v, pos, n, "\n");
        let (line_end, next) = match newline {
            Some(e) => {
                let cut = if e > pos && v[e - 1] == '\r' {
                    e - 1
                } else {
                    e
                };
                (cut, e + 1)
            },
            None => (n, n),
        };
        let ghost line = v@.subrange(pos as int, line_end as int);
        proof {
            lemma_line_step(v@, pos as int, line_end as int, next as int);
        }
        let (names, sliceable, found) = line_match(&v, pos, line_end, zone);
        if names && !sliceable {
            blocked = true;
        }
        if names && found.is_some() {
            return (found, !blocked);
        }
        pos = next;
    }
    assert(v@.skip(pos as int) =~= Seq::<char>::empty());
    assert(lines_of(Seq::<char>::empty()) =~= seq![]);
    (None, !blocked)
}

/// Whether `lookup_zone` may search `table` for `zone`: every line naming the
/// zone that the search reaches has a sliceable coordinate field.
pub fn zone_searchable(table: &str, zone: &str) -> (b: bool)
    ensures
        b == lines_searchable(lines_of(table@), zone@),
{
    scan_table(table, zone).1
}

/// The coordinates the table (in `zone1970.tab` form) gives for `zone`: those
/// of the first non-comment line whose third field is the zone and whose
/// second field parses.
pub fn lookup_zone(table: &str, zone: &str) -> (r: Option<Iso6709>)
    requires
        lines_searchable(lines_of(table@), zone@),
    ensures
        r == lookup_lines(lines_of(table@), zone@),
{
    scan_table(table, zone).0
}

/// The first of the tables that has coordinates for `zone`.
pub open spec fn lookup_tables(tables: Seq<Seq<char>>, zone: Seq<char>) -> Option<Iso6709>
    decreases tables.len(),
{
    if tables.len() == 0 {
        None
    } else {
        match lookup_lines(lines_of(tables[0]), zone) {
            Some(c) => Some(c),
            None => lookup_tables(tables.drop_first(), zone),
        }
    }
}

/// Every table the search reaches can be searched for `zone`.
pub open spec fn tables_searchable(tables: Seq<Seq<char>>, zone: Seq<char>) -> bool
    decreases tables.len(),
{
    if tables.len() == 0 {
        true
    } else {
        lines_searchable(lines_of(tables[0]), zone) && (lookup_lines(lines_of(tables[0]), zone)
            is Some || tables_searchable(tables.drop_first(), zone))
    }
}

pub open spec fn texts(tables: Seq<String>) -> Seq<Seq<char>> {
    tables.map_values(|t: String| t@)
}

/// Whether `lookup_in_tables` may search `tables` for `zone`.
pub fn tables_searchable_for(tables: &[String], zone: &str) -> (b: bool)
    ensures
        b == tables_searchable(texts(tables@), zone@),
{
    let mut k: usize = 0;
    assert(texts(tables@).skip(0) =~= texts(tables@));
    while k < tables.len()
        invariant
            k <= tables@.len(),
            tables_searchable(texts(tables@), zone@) == tables_searchable(
                texts(tables@).skip(k as int),
                zone@,
            ),
        decreases tables@.len() - k,
    {
        let ghost rest = texts(tables@).skip(k as int);
        assert(rest[0] == tables@[k as int]@);
        assert(rest.drop_first() =~= texts(tables@).skip(k + 1));
        let (found, ok) = scan_table(tables[k].as_str(), zone);
        if !ok {
            return false;
        }
        if found.is_some() {
            return true;
        }
        k = k + 1;
    }
    assert(texts(tables@).skip(k as int) =~= Seq::<Seq<char>>::empty());
    true
}

/// The coordinates for `zone` from the first table that has them.
pub fn lookup_in_tables(tables: &[String], zone: &str) -> (r: Option<Iso6709>)
    requires
        tables_searchable(texts(tables@), zone@),
    ensures
        r == lookup_tables(texts(tables@), zone@),
{
    let mut k: usize = 0;
    assert(texts(tables@).skip(0) =~= texts(tables@));
    while k < tables.len()
        invariant
            k <= tables@.len(),
            lookup_tables(texts(tables@), zone@) == lookup_tables(
                texts(tables@).skip(k as int),
                zone@,
            ),
            tables_searchable(texts(tables@).skip(k as int), zone@),
        decreases tables@.len() - k,
    {
        let ghost rest = texts(tables@).skip(k as int);
        assert(rest[0] == tables@[k as int]@);
        assert(rest.drop_first() =~= texts(tables@).skip(k + 1));
        let found = lookup_zone(tables[k].as_str(), zone);
        if found.is_some() {
            return found;
        }
        k = k + 1;
    }
    assert(texts(tables@).skip(k as int) =~= Seq::<Seq<char>>::empty());
    None
}

} // verus!

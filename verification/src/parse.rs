//! What the lines of `ls -l` say: the older format of Android's toolbox, which
//! has no link count and gives no size for directories, and the one of toybox.

use crate::sys::{S_IFBLK, S_IFCHR, S_IFDIR, S_IFIFO, S_IFLNK, S_IFREG, S_IFSOCK};
use crate::text::{
    all_digits, chars_of, decimal, digit_value, digits_value, find_from, first_at,
    law_a_digit_more, law_decimal_reads_back, law_leading_is_taken_off, occurs, occurs_at,
    parse_digits, repeat_text, repeated, text_between, without_leading,
};
use crate::time::FileTime;
use vstd::prelude::*;
use vstd::string::*;

verus! {

/// What is known of a file from its line.
#[derive(Debug)]
pub struct FileMeta {
    pub mode: u32,
    pub nlink: u32,
    pub uid: u32,
    pub gid: u32,
    pub size: u64,
    pub rdev: u64,
    pub mtime: FileTime,
    /// The line itself.
    pub raw_line: String,
}

impl Clone for FileMeta {
    fn clone(&self) -> (r: Self)
        ensures
            r == *self,
    {
        FileMeta {
            mode: self.mode,
            nlink: self.nlink,
            uid: self.uid,
            gid: self.gid,
            size: self.size,
            rdev: self.rdev,
            mtime: self.mtime,
            raw_line: self.raw_line.clone(),
        }
    }
}

/// What a [`FileMeta`] says.
pub struct MetaView {
    pub mode: u32,
    pub nlink: u32,
    pub uid: u32,
    pub gid: u32,
    pub size: u64,
    pub rdev: u64,
    pub mtime: FileTime,
    pub raw_line: Seq<char>,
}

impl View for FileMeta {
    type V = MetaView;

    open spec fn view(&self) -> MetaView {
        MetaView {
            mode: self.mode,
            nlink: self.nlink,
            uid: self.uid,
            gid: self.gid,
            size: self.size,
            rdev: self.rdev,
            mtime: self.mtime,
            raw_line: self.raw_line@,
        }
    }
}

/// The file type that the first character of a line stands for.
pub open spec fn type_bits(c: char) -> Option<u32> {
    if c == '-' {
        Some(S_IFREG)
    } else if c == 'd' {
        Some(S_IFDIR)
    } else if c == 'l' {
        Some(S_IFLNK)
    } else if c == 'b' {
        Some(S_IFBLK)
    } else if c == 'c' {
        Some(S_IFCHR)
    } else if c == 'p' {
        Some(S_IFIFO)
    } else if c == 's' {
        Some(S_IFSOCK)
    } else {
        None
    }
}

/// The bit `bit` where `c` is `letter`, none where it is a dash.
pub open spec fn flag_bits(c: char, letter: char, bit: u32) -> Option<u32> {
    if c == letter {
        Some(bit)
    } else if c == '-' {
        Some(0)
    } else {
        None
    }
}

/// The bits for an execute column: `x` is execute, `mark` is execute with the
/// special bit, `bare` the special bit alone.
pub open spec fn execute_bits(
    c: char,
    execute: u32,
    mark: char,
    bare: char,
    special: u32,
) -> Option<u32> {
    if c == 'x' {
        Some(execute)
    } else if c == mark {
        Some((execute + special) as u32)
    } else if c == bare {
        Some(special)
    } else if c == '-' {
        Some(0)
    } else {
        None
    }
}

/// The sum of two sets of bits, where both are there.
pub open spec fn both(a: Option<u32>, b: Option<u32>) -> Option<u32> {
    match (a, b) {
        (Some(a), Some(b)) => Some((a + b) as u32),
        _ => None,
    }
}

/// The mode that a line starts with.
pub open spec fn mode_in(line: Seq<char>) -> Option<u32> {
    if line.len() < 11 || line[10] != ' ' {
        None
    } else {
        let user = both(
            both(flag_bits(line[1], 'r', 0o400), flag_bits(line[2], 'w', 0o200)),
            execute_bits(line[3], 0o100, 's', 'S', 0o4000),
        );
        let group = both(
            both(flag_bits(line[4], 'r', 0o040), flag_bits(line[5], 'w', 0o020)),
            execute_bits(line[6], 0o010, 's', 'S', 0o2000),
        );
        let other = both(
            both(flag_bits(line[7], 'r', 0o004), flag_bits(line[8], 'w', 0o002)),
            execute_bits(line[9], 0o001, 't', 'T', 0o1000),
        );
        both(both(type_bits(line[0]), user), both(group, other))
    }
}

fn type_of(c: char) -> (r: Option<u32>)
    ensures
        r == type_bits(c),
{
    match c {
        '-' => Some(S_IFREG),
        'd' => Some(S_IFDIR),
        'l' => Some(S_IFLNK),
        'b' => Some(S_IFBLK),
        'c' => Some(S_IFCHR),
        'p' => Some(S_IFIFO),
        's' => Some(S_IFSOCK),
        _ => None,
    }
}

fn flag_of(c: char, letter: char, bit: u32) -> (r: Option<u32>)
    ensures
        r == flag_bits(c, letter, bit),
{
    if c == letter {
        Some(bit)
    } else if c == '-' {
        Some(0)
    } else {
        None
    }
}

fn execute_of(c: char, execute: u32, mark: char, bare: char, special: u32) -> (r: Option<u32>)
    requires
        execute <= 0o100,
        special <= 0o4000,
    ensures
        r == execute_bits(c, execute, mark, bare, special),
{
    if c == 'x' {
        Some(execute)
    } else if c == mark {
        Some(execute + special)
    } else if c == bare {
        Some(special)
    } else if c == '-' {
        Some(0)
    } else {
        None
    }
}

fn add_bits(a: Option<u32>, b: Option<u32>) -> (r: Option<u32>)
    requires
        a matches Some(a) ==> a <= 0o200000,
        b matches Some(b) ==> b <= 0o200000,
    ensures
        r == both(a, b),
{
    match (a, b) {
        (Some(a), Some(b)) => Some(a + b),
        _ => None,
    }
}

/// The mode that a line starts with.
fn mode_of(line: &Vec<char>) -> (r: Option<u32>)
    ensures
        r == mode_in(line@),
{
    if line.len() < 11 || line[10] != ' ' {
        return None;
    }
    let user = add_bits(
        add_bits(flag_of(line[1], 'r', 0o400), flag_of(line[2], 'w', 0o200)),
        execute_of(line[3], 0o100, 's', 'S', 0o4000),
    );
    let group = add_bits(
        add_bits(flag_of(line[4], 'r', 0o040), flag_of(line[5], 'w', 0o020)),
        execute_of(line[6], 0o010, 's', 'S', 0o2000),
    );
    let other = add_bits(
        add_bits(flag_of(line[7], 'r', 0o004), flag_of(line[8], 'w', 0o002)),
        execute_of(line[9], 0o001, 't', 'T', 0o1000),
    );
    add_bits(add_bits(type_of(line[0]), user), add_bits(group, other))
}

/// Whether a line describes a file, rather than being a total or a message.
pub fn is_valid_ls_output(line: &str) -> (r: bool)
    ensures
        r == (mode_in(line@) is Some),
{
    let chars = chars_of(line);
    mode_of(&chars).is_some()
}

// ---- the date and what stands around it ----

/// A digit, or the separator that belongs at place `k` of `0000-00-00 00:00`.
pub open spec fn stamp_char(c: char, k: int) -> bool {
    if k == 4 || k == 7 {
        c == '-'
    } else if k == 10 {
        c == ' '
    } else if k == 13 {
        c == ':'
    } else {
        '0' <= c && c <= '9'
    }
}

/// A date and a time of day stand in `line` at `at`, with a space on either
/// side.
pub open spec fn stamp_at(line: Seq<char>, at: int) -> bool {
    &&& 11 <= at
    &&& at + 16 < line.len()
    &&& line[at - 1] == ' '
    &&& line[at + 16] == ' '
    &&& forall|k: int| 0 <= k < 16 ==> stamp_char(#[trigger] line[at + k], k)
}

/// The first date in `line`.
pub open spec fn first_stamp(line: Seq<char>, at: int) -> bool {
    &&& stamp_at(line, at)
    &&& forall|j: int| j < at ==> !stamp_at(line, j)
}

/// Where the first date in `line` stands.
pub open spec fn stamp_in(line: Seq<char>) -> Option<int> {
    if exists|at: int| stamp_at(line, at) {
        Some(choose|at: int| first_stamp(line, at))
    } else {
        None
    }
}

proof fn lemma_first_stamp(line: Seq<char>, at: int)
    requires
        first_stamp(line, at),
    ensures
        stamp_in(line) == Some(at),
{
    let chosen = choose|at: int| first_stamp(line, at);
    assert(first_stamp(line, chosen));
    assert(chosen == at);
}

/// Where the first date in a line stands.
fn find_stamp(line: &Vec<char>) -> (r: Option<usize>)
    ensures
        (match r {
            Some(at) => stamp_in(line@) == Some(at as int) && stamp_at(line@, at as int),
            None => stamp_in(line@) is None,
        }),
{
    let mut at: usize = 11;
    while at < line.len() && line.len() - at > 16
        invariant
            11 <= at,
            forall|j: int| j < at ==> !stamp_at(line@, j),
        decreases line.len() - at,
    {
        if line[at - 1] == ' ' && line[at + 16] == ' ' {
            let mut k: usize = 0;
            while k < 16 && stamp_place(line[at + k], k)
                invariant
                    k <= 16,
                    11 <= at,
                    at + 16 < line.len(),
                    forall|j: int| 0 <= j < k ==> stamp_char(#[trigger] line@[at + j], j),
                decreases 16 - k,
            {
                k += 1;
            }
            if k == 16 {
                assert(stamp_at(line@, at as int));
                proof {
                    lemma_first_stamp(line@, at as int);
                }
                return Some(at);
            }
            assert(!stamp_char(line@[at + k], k as int));
        }
        at += 1;
    }
    assert forall|j: int| !stamp_at(line@, j) by {}
    None
}

fn stamp_place(c: char, k: usize) -> (r: bool)
    ensures
        r == stamp_char(c, k as int),
{
    if k == 4 || k == 7 {
        c == '-'
    } else if k == 10 {
        c == ' '
    } else if k == 13 {
        c == ':'
    } else {
        '0' <= c && c <= '9'
    }
}

pub open spec fn is_leap(year: int) -> bool {
    year % 4 == 0 && (year % 100 != 0 || year % 400 == 0)
}

pub open spec fn year_days(year: int) -> int {
    if is_leap(year) {
        366
    } else {
        365
    }
}

pub open spec fn month_days(year: int, month: int) -> int {
    if month == 2 {
        if is_leap(year) {
            29
        } else {
            28
        }
    } else if month == 4 || month == 6 || month == 9 || month == 11 {
        30
    } else {
        31
    }
}

/// The days from the first of January 1970 to that of `year`, negative before
/// 1970.
pub open spec fn days_to_year(year: int) -> int
    decreases
            (if year >= 1970 {
                year - 1970
            } else {
                1970 - year
            }),
{
    if year == 1970 {
        0
    } else if year > 1970 {
        days_to_year(year - 1) + year_days(year - 1)
    } else {
        days_to_year(year + 1) - year_days(year)
    }
}

/// The days from the first of January to the first of `month`.
pub open spec fn days_to_month(year: int, month: int) -> int
    decreases month,
{
    if month <= 1 {
        0
    } else {
        days_to_month(year, month - 1) + month_days(year, month - 1)
    }
}

/// The seconds from the Unix epoch to a date and time of day, where there is
/// such a date and time.
pub open spec fn seconds_to(year: int, month: int, day: int, hour: int, minute: int) -> Option<
    int,
> {
    if 1 <= month <= 12 && 1 <= day <= month_days(year, month) && 0 <= hour < 24 && 0 <= minute
        < 60 {
        Some(
            (days_to_year(year) + days_to_month(year, month) + day - 1) * 86400 + hour * 3600
                + minute * 60,
        )
    } else {
        None
    }
}

/// The number between two places of a line.
pub open spec fn number_between(line: Seq<char>, from: int, to: int) -> int {
    digits_value(line.subrange(from, to), 10) as int
}

/// The time that the date at `at` stands for, read as UTC.
pub open spec fn time_at(line: Seq<char>, at: int) -> Option<int> {
    seconds_to(
        number_between(line, at, at + 4),
        number_between(line, at + 5, at + 7),
        number_between(line, at + 8, at + 10),
        number_between(line, at + 11, at + 13),
        number_between(line, at + 14, at + 16),
    )
}

proof fn lemma_few_digits(s: Seq<char>)
    requires
        s.len() <= 4,
    ensures
        digits_value(s, 10) < 10000,
{
    reveal_with_fuel(digits_value, 5);
}

fn leap(year: i64) -> (r: bool)
    requires
        0 <= year,
    ensures
        r == is_leap(year as int),
{
    year % 4 == 0 && (year % 100 != 0 || year % 400 == 0)
}

fn days_in_month(year: i64, month: i64) -> (r: i64)
    requires
        0 <= year,
    ensures
        r == month_days(year as int, month as int),
{
    if month == 2 {
        if leap(year) {
            29
        } else {
            28
        }
    } else if month == 4 || month == 6 || month == 9 || month == 11 {
        30
    } else {
        31
    }
}

fn days_before_year(year: i64) -> (days: i64)
    requires
        0 <= year < 10000,
    ensures
        days == days_to_year(year as int),
        -4_000_000 < days < 4_000_000,
{
    let mut days: i64 = 0;
    let mut y: i64 = 1970;
    while y < year
        invariant
            1970 <= y,
            0 <= year < 10000,
            y <= year || y == 1970,
            days == days_to_year(y as int),
            0 <= days <= (y - 1970) * 366,
        decreases year - y,
    {
        days += if leap(y) {
            366
        } else {
            365
        };
        y += 1;
    }
    while y > year
        invariant
            0 <= year < 10000,
            y >= year,
            y > 1970 ==> y == year,
            days == days_to_year(y as int),
            y <= 1970 ==> -(1970 - y) * 366 <= days <= 0,
            y > 1970 ==> 0 <= days <= (y - 1970) * 366,
        decreases y - year,
    {
        y -= 1;
        days -= if leap(y) {
            366
        } else {
            365
        };
    }
    days
}

fn days_before_month(year: i64, month: i64) -> (days: i64)
    requires
        0 <= year,
        1 <= month <= 12,
    ensures
        days == days_to_month(year as int, month as int),
        0 <= days < 400,
{
    let mut days: i64 = 0;
    let mut m: i64 = 1;
    while m < month
        invariant
            0 <= year,
            1 <= m <= month <= 12,
            days == days_to_month(year as int, m as int),
            0 <= days <= (m - 1) * 31,
        decreases month - m,
    {
        days += days_in_month(year, m);
        m += 1;
    }
    days
}

fn number_of(line: &Vec<char>, from: usize, to: usize) -> (r: i64)
    requires
        from < to <= line.len(),
        to - from <= 4,
        forall|j: int| from <= j < to ==> '0' <= #[trigger] line@[j] && line@[j] <= '9',
    ensures
        r == number_between(line@, from as int, to as int),
        0 <= r < 10000,
{
    let ghost digits = line@.subrange(from as int, to as int);
    proof {
        lemma_few_digits(digits);
        assert forall|i: int| 0 <= i < digits.len() implies digit_value(
            #[trigger] digits[i],
            10,
        ) is Some by {
            assert(digits[i] == line@[from + i]);
        }
    }
    match parse_digits(line, from, to, 10) {
        Some(n) => n as i64,
        None => 0,
    }
}

/// The time that the date at `at` stands for.
fn time_of(line: &Vec<char>, at: usize) -> (r: Option<i64>)
    requires
        stamp_at(line@, at as int),
    ensures
        (match r {
            Some(secs) => time_at(line@, at as int) == Some(secs as int),
            None => time_at(line@, at as int) is None,
        }),
{
    assert forall|j: int|
        (at <= j < at + 4 || at + 5 <= j < at + 7 || at + 8 <= j < at + 10 || at + 11 <= j < at
            + 13 || at + 14 <= j < at + 16) implies '0' <= #[trigger] line@[j] && line@[j]
        <= '9' by {
        assert(stamp_char(line@[at + (j - at)], j - at));
    }
    let len: usize = line.len();
    assert(at + 16 < len);
    let year = number_of(line, at, at + 4);
    let month = number_of(line, at + 5, at + 7);
    let day = number_of(line, at + 8, at + 10);
    let hour = number_of(line, at + 11, at + 13);
    let minute = number_of(line, at + 14, at + 16);
    if month < 1 || month > 12 || day < 1 || day > days_in_month(year, month) || hour > 23
        || minute > 59 {
        return None;
    }
    let days = days_before_year(year) + days_before_month(year, month) + day - 1;
    Some(days * 86400 + hour * 3600 + minute * 60)
}

// ---- the columns before the date ----

/// Where the word at the start of `s` ends: at its first space, or at its end.
pub open spec fn word_end(s: Seq<char>) -> nat
    decreases s.len(),
{
    if s.len() == 0 || s[0] == ' ' {
        0
    } else {
        1 + word_end(s.skip(1))
    }
}

/// The words of `s`: what stands between its spaces.
pub open spec fn words_in(s: Seq<char>) -> Seq<Seq<char>>
    decreases s.len(),
{
    if s.len() == 0 {
        Seq::empty()
    } else if s[0] == ' ' {
        words_in(s.skip(1))
    } else {
        let end = word_end(s) as int;
        if end < s.len() {
            seq![s.take(end)] + words_in(s.skip(end))
        } else {
            seq![s]
        }
    }
}

/// The words between two places of a line, each as the places where it starts
/// and ends.
fn split_words(line: &Vec<char>, from: usize, to: usize) -> (words: Vec<(usize, usize)>)
    requires
        from <= to <= line.len(),
    ensures
        placed(line@, words@) == words_in(line@.subrange(from as int, to as int)),
        forall|i: int| 0 <= i < words@.len() ==> (#[trigger] words@[i]).0 <= words@[i].1 <= to,
{
    let mut words: Vec<(usize, usize)> = Vec::new();
    let mut start: usize = from;
    let ghost all = line@.subrange(from as int, to as int);
    assert(placed(line@, words@) + words_in(all) =~= words_in(all));
    while start < to
        invariant
            from <= start <= to <= line.len(),
            placed(line@, words@) + words_in(line@.subrange(start as int, to as int)) == words_in(
                all,
            ),
            forall|i: int|
                0 <= i < words@.len() ==> (#[trigger] words@[i]).0 <= words@[i].1 <= to,
        decreases to - start,
    {
        let ghost rest = line@.subrange(start as int, to as int);
        if line[start] == ' ' {
            assert(rest.skip(1) == line@.subrange(start + 1, to as int));
            start += 1;
        } else {
            let mut end: usize = start;
            assert(rest.skip(0) == rest);
            while end < to && line[end] != ' '
                invariant
                    start <= end <= to <= line.len(),
                    rest == line@.subrange(start as int, to as int),
                    word_end(rest) == end - start + word_end(rest.skip(end - start)),
                decreases to - end,
            {
                assert(rest.skip(end - start).skip(1) == rest.skip(end + 1 - start));
                end += 1;
            }
            assert(word_end(rest) == end - start);
            let ghost before = words@;
            words.push((start, end));
            let ghost word = line@.subrange(start as int, end as int);
            assert(placed(line@, words@) =~= placed(line@, before).push(word));
            assert(rest.take(end - start) == word);
            if end == to {
                assert(words_in(rest) == seq![word]);
                assert(placed(line@, before) + seq![word] =~= placed(line@, words@));
                assert(words_in(line@.subrange(end as int, to as int)) =~= Seq::empty());
                assert(placed(line@, words@) + Seq::empty() =~= placed(line@, words@));
            } else {
                assert(rest.skip(end - start) == line@.subrange(end as int, to as int));
                assert(placed(line@, before) + (seq![word] + words_in(
                    line@.subrange(end as int, to as int),
                )) =~= placed(line@, words@) + words_in(line@.subrange(end as int, to as int)));
            }
            start = end;
        }
    }
    assert(placed(line@, words@) + words_in(line@.subrange(start as int, to as int)) =~= placed(
        line@,
        words@,
    ));
    words
}

/// The number that a word is written as.
pub open spec fn word_number(word: Seq<char>) -> Option<u64> {
    if word.len() > 0 && all_digits(word, 10) && digits_value(word, 10) <= u64::MAX {
        Some(digits_value(word, 10) as u64)
    } else {
        None
    }
}

/// The same, where it fits 32 bits.
pub open spec fn word_number_32(word: Seq<char>) -> Option<u32> {
    match word_number(word) {
        Some(n) if n <= u32::MAX => Some(n as u32),
        _ => None,
    }
}

/// The id of an owner: a number is itself, a name of the device means nothing
/// here and counts as root.
pub open spec fn owner_id(word: Seq<char>) -> u32 {
    match word_number_32(word) {
        Some(id) => id,
        None => 0,
    }
}

/// A device number as the kernel packs it into 32 bits.
pub open spec fn device_number(major: u64, minor: u64) -> Option<u64> {
    if major < 4096 && minor < 1048576 {
        Some((minor % 256 + major * 256 + (minor / 256) * 1048576) as u64)
    } else {
        None
    }
}

/// The device number in the columns `10,` and `61`.
pub open spec fn device_columns(major: Seq<char>, minor: Seq<char>) -> Option<u64> {
    if major.len() > 0 && major.last() == ',' {
        match (word_number(major.drop_last()), word_number(minor)) {
            (Some(major), Some(minor)) => device_number(major, minor),
            _ => None,
        }
    } else {
        None
    }
}

/// The link count, size and device number in the columns before the date. The
/// link count is missing in the older format, and so is the size of anything
/// but a file; a device has its number in place of a size.
pub open spec fn counts_in(words: Seq<Seq<char>>, device: bool) -> Option<(u32, u64, u64)> {
    if device {
        if words.len() == 4 {
            match device_columns(words[2], words[3]) {
                Some(rdev) => Some((1, 0, rdev)),
                None => None,
            }
        } else if words.len() == 5 {
            match (word_number_32(words[0]), device_columns(words[3], words[4])) {
                (Some(nlink), Some(rdev)) => Some((nlink, 0, rdev)),
                _ => None,
            }
        } else {
            None
        }
    } else if words.len() == 2 {
        Some((1, 0, 0))
    } else if words.len() == 3 {
        match word_number(words[2]) {
            Some(size) => Some((1, size, 0)),
            None => None,
        }
    } else if words.len() == 4 {
        match (word_number_32(words[0]), word_number(words[3])) {
            (Some(nlink), Some(size)) => Some((nlink, size, 0)),
            _ => None,
        }
    } else {
        None
    }
}

/// Which column the owner stands in; the group follows it.
pub open spec fn owner_column(columns: int, device: bool) -> int {
    if columns == (if device {
        5int
    } else {
        4int
    }) {
        1
    } else {
        0
    }
}

/// What a line of `ls -l` says of a file.
pub open spec fn meta_in(line: Seq<char>) -> Option<MetaView> {
    match (mode_in(line), stamp_in(line)) {
        (Some(mode), Some(at)) => {
            let device = line[0] == 'b' || line[0] == 'c';
            let words = words_in(line.subrange(10, at));
            let owner = owner_column(words.len() as int, device);
            match (counts_in(words, device), time_at(line, at)) {
                (Some((nlink, size, rdev)), Some(secs)) => Some(
                    MetaView {
                        mode,
                        nlink,
                        uid: owner_id(words[owner]),
                        gid: owner_id(words[owner + 1]),
                        size,
                        rdev,
                        mtime: FileTime { secs: secs as i64, nanos: 0 },
                        raw_line: line,
                    },
                ),
                _ => None,
            }
        },
        _ => None,
    }
}

/// The name of the file that a line is about: what follows the date, without
/// the target of a symbolic link.
pub open spec fn name_in(line: Seq<char>) -> Option<Seq<char>> {
    match stamp_in(line) {
        Some(at) => {
            let rest = line.skip(at + 17);
            let name = if line[0] == 'l' {
                before(rest, " -> "@)
            } else {
                rest
            };
            if name.len() > 0 {
                Some(name)
            } else {
                None
            }
        },
        None => None,
    }
}

/// What stands in `s` before the first `pattern`; all of `s` where it does not
/// occur.
pub open spec fn before(s: Seq<char>, pattern: Seq<char>) -> Seq<char> {
    if occurs(s, pattern) {
        s.take(choose|at: int| first_at(s, pattern, at))
    } else {
        s
    }
}

/// What stands in `s` after the first `pattern`.
pub open spec fn after(s: Seq<char>, pattern: Seq<char>) -> Option<Seq<char>> {
    if occurs(s, pattern) {
        Some(s.skip((choose|at: int| first_at(s, pattern, at)) + pattern.len()))
    } else {
        None
    }
}

/// The target of a symbolic link as it is to be read below the mount point: an
/// absolute one is led back up to the root of the device, from a path that
/// holds `slashes` slashes.
pub open spec fn rerooted(target: Seq<char>, slashes: nat) -> Seq<char> {
    if target.len() > 0 && target[0] == '/' {
        repeated("../"@, (if slashes > 0 {
            (slashes - 1) as nat
        } else {
            0
        })) + without_leading(target, '/')
    } else {
        target
    }
}

/// The words at the given places of a line.
pub open spec fn placed(line: Seq<char>, words: Seq<(usize, usize)>) -> Seq<Seq<char>> {
    words.map_values(|w: (usize, usize)| line.subrange(w.0 as int, w.1 as int))
}

pub(crate) proof fn lemma_first_at(s: Seq<char>, pattern: Seq<char>, at: int)
    requires
        first_at(s, pattern, at),
    ensures
        (choose|at: int| first_at(s, pattern, at)) == at,
{
    let chosen = choose|at: int| first_at(s, pattern, at);
    assert(first_at(s, pattern, chosen));
    assert(chosen == at);
}

fn word_value(line: &Vec<char>, from: usize, to: usize) -> (r: Option<u64>)
    requires
        from <= to <= line.len(),
    ensures
        r == word_number(line@.subrange(from as int, to as int)),
{
    parse_digits(line, from, to, 10)
}

fn word_value_32(line: &Vec<char>, from: usize, to: usize) -> (r: Option<u32>)
    requires
        from <= to <= line.len(),
    ensures
        r == word_number_32(line@.subrange(from as int, to as int)),
{
    match word_value(line, from, to) {
        Some(n) => if n <= u32::MAX as u64 {
            Some(n as u32)
        } else {
            None
        },
        None => None,
    }
}

fn id_of(line: &Vec<char>, from: usize, to: usize) -> (id: u32)
    requires
        from <= to <= line.len(),
    ensures
        id == owner_id(line@.subrange(from as int, to as int)),
{
    match word_value_32(line, from, to) {
        Some(id) => id,
        None => 0,
    }
}

fn device_of(line: &Vec<char>, major: (usize, usize), minor: (usize, usize)) -> (r: Option<u64>)
    requires
        major.0 <= major.1 <= line.len(),
        minor.0 <= minor.1 <= line.len(),
    ensures
        r == device_columns(
            line@.subrange(major.0 as int, major.1 as int),
            line@.subrange(minor.0 as int, minor.1 as int),
        ),
{
    if major.0 == major.1 || line[major.1 - 1] != ',' {
        return None;
    }
    assert(line@.subrange(major.0 as int, major.1 as int).drop_last() == line@.subrange(
        major.0 as int,
        major.1 - 1,
    ));
    match (word_value(line, major.0, major.1 - 1), word_value(line, minor.0, minor.1)) {
        (Some(major), Some(minor)) => if major < 4096 && minor < 1048576 {
            Some(minor % 256 + major * 256 + (minor / 256) * 1048576)
        } else {
            None
        },
        _ => None,
    }
}

fn counts_of(line: &Vec<char>, words: &Vec<(usize, usize)>, device: bool) -> (r: Option<
    (u32, u64, u64),
>)
    requires
        forall|i: int|
            0 <= i < words@.len() ==> (#[trigger] words@[i]).0 <= words@[i].1 <= line.len(),
    ensures
        r == counts_in(placed(line@, words@), device),
{
    if device {
        if words.len() == 4 {
            match device_of(line, words[2], words[3]) {
                Some(rdev) => Some((1, 0, rdev)),
                None => None,
            }
        } else if words.len() == 5 {
            match (
                word_value_32(line, words[0].0, words[0].1),
                device_of(line, words[3], words[4]),
            ) {
                (Some(nlink), Some(rdev)) => Some((nlink, 0, rdev)),
                _ => None,
            }
        } else {
            None
        }
    } else if words.len() == 2 {
        Some((1, 0, 0))
    } else if words.len() == 3 {
        match word_value(line, words[2].0, words[2].1) {
            Some(size) => Some((1, size, 0)),
            None => None,
        }
    } else if words.len() == 4 {
        match (
            word_value_32(line, words[0].0, words[0].1),
            word_value(line, words[3].0, words[3].1),
        ) {
            (Some(nlink), Some(size)) => Some((nlink, size, 0)),
            _ => None,
        }
    } else {
        None
    }
}

/// What a line of `ls -l` says of a file.
pub fn parse_ls_line(line: &str) -> (r: Option<FileMeta>)
    ensures
        (match r {
            Some(meta) => meta_in(line@) == Some(meta@),
            None => meta_in(line@) is None,
        }),
{
    let chars = chars_of(line);
    let mode = match mode_of(&chars) {
        Some(mode) => mode,
        None => {
            return None;
        },
    };
    let at = match find_stamp(&chars) {
        Some(at) => at,
        None => {
            return None;
        },
    };
    let device = chars[0] == 'b' || chars[0] == 'c';
    let words = split_words(&chars, 10, at);
    let (nlink, size, rdev) = match counts_of(&chars, &words, device) {
        Some(counts) => counts,
        None => {
            return None;
        },
    };
    let secs: i64 = match time_of(&chars, at) {
        Some(secs) => secs,
        None => {
            return None;
        },
    };
    let owner: usize = if words.len() == (if device {
        5
    } else {
        4
    }) {
        1
    } else {
        0
    };
    let (owner_word, group_word) = (words[owner], words[owner + 1]);
    Some(
        FileMeta {
            mode,
            nlink,
            uid: id_of(&chars, owner_word.0, owner_word.1),
            gid: id_of(&chars, group_word.0, group_word.1),
            size,
            rdev,
            mtime: FileTime { secs, nanos: 0 },
            raw_line: line.to_owned(),
        },
    )
}

/// The name of the file that a line is about.
pub fn extract_filename(line: &str) -> (r: Option<String>)
    ensures
        (match r {
            Some(name) => name_in(line@) == Some(name@),
            None => name_in(line@) is None,
        }),
{
    let chars = chars_of(line);
    match find_stamp(&chars) {
        Some(at) => {
            let from: usize = at + 17;
            let mut to: usize = chars.len();
            let ghost rest = chars@.skip(from as int);
            if chars[0] == 'l' {
                let arrow = chars_of(" -> ");
                match find_from(&chars, &arrow, from) {
                    Some(end) => {
                        proof {
                            lemma_occurs_in_rest(chars@, arrow@, from as int);
                            assert(occurs_at(rest, arrow@, end - from));
                            assert(first_at(rest, arrow@, end - from));
                            lemma_first_at(rest, arrow@, end - from);
                        }
                        to = end;
                    },
                    None => {
                        proof {
                            lemma_occurs_in_rest(chars@, arrow@, from as int);
                        }
                    },
                }
            }
            assert(rest.take(to - from) == chars@.subrange(from as int, to as int));
            assert(rest.take(rest.len() as int) == rest);
            if from == to {
                return None;
            }
            Some(text_between(&chars, from, to))
        },
        None => None,
    }
}

proof fn lemma_occurs_in_rest(s: Seq<char>, pattern: Seq<char>, from: int)
    requires
        0 <= from <= s.len(),
    ensures
        forall|j: int|
            0 <= j ==> #[trigger] occurs_at(s.skip(from), pattern, j) == occurs_at(
                s,
                pattern,
                from + j,
            ),
{
    assert forall|j: int| 0 <= j implies #[trigger] occurs_at(s.skip(from), pattern, j)
        == occurs_at(s, pattern, from + j) by {
        if j + pattern.len() <= s.len() - from {
            assert(s.skip(from).subrange(j, j + pattern.len()) == s.subrange(
                from + j,
                from + j + pattern.len(),
            ));
        }
    }
}

/// The target of the symbolic link that a line is about, as it is to be read
/// below the mount point; `num_slashes` is the number of slashes in the path
/// of the link.
pub fn parse_symlink_target(raw_line: &str, num_slashes: usize) -> (r: Option<String>)
    ensures
        (match r {
            Some(target) => after(raw_line@, " -> "@) matches Some(t) && target@ == rerooted(
                t,
                num_slashes as nat,
            ),
            None => after(raw_line@, " -> "@) is None,
        }),
{
    let chars = chars_of(raw_line);
    let arrow = chars_of(" -> ");
    match find_from(&chars, &arrow, 0) {
        Some(at) => {
            let len: usize = chars.len();
            assert(at + arrow@.len() <= len);
            let from: usize = at + arrow.len();
            let ghost target = chars@.skip(from as int);
            proof {
                lemma_first_at(chars@, arrow@, at as int);
            }
            if from < chars.len() && chars[from] == '/' {
                let mut start: usize = from;
                while start < chars.len() && chars[start] == '/'
                    invariant
                        from <= start <= chars.len(),
                        without_leading(target, '/') == without_leading(
                            chars@.skip(start as int),
                            '/',
                        ),
                    decreases chars.len() - start,
                {
                    assert(chars@.skip(start as int).skip(1) == chars@.skip(start + 1));
                    start += 1;
                }
                let up: usize = if num_slashes > 0 {
                    num_slashes - 1
                } else {
                    0
                };
                let mut r = repeat_text("../", up);
                let below = text_between(&chars, start, chars.len());
                assert(chars@.subrange(start as int, chars@.len() as int) == chars@.skip(
                    start as int,
                ));
                r.append(below.as_str());
                Some(r)
            } else {
                assert(chars@.subrange(from as int, chars@.len() as int) == target);
                Some(text_between(&chars, from, chars.len()))
            }
        },
        None => None,
    }
}

// ---- laws ----

/// A link that is relative is read as it stands. One that is absolute is read
/// from the root of the device: from a link whose path holds `slashes` slashes
/// the answer climbs one directory for each but the first, and then goes to the
/// target without its leading slashes. So it ends at the root of the device and
/// nowhere above it.
pub proof fn law_links_lead_back_to_the_root(lead: nat, below: Seq<char>, slashes: nat)
    requires
        lead > 0,
        below.len() > 0 ==> below[0] != '/',
    ensures
        rerooted(below, slashes) == below,
        ({
            let up: int = if slashes > 0 {
                slashes - 1
            } else {
                0
            };
            let r = rerooted(Seq::new(lead, |i: int| '/') + below, slashes);
            &&& r.len() == 3 * up + below.len()
            &&& forall|j: int|
                0 <= j < 3 * up ==> r[j] == (if j % 3 == 2 {
                    '/'
                } else {
                    '.'
                })
            &&& r.skip(3 * up) == below
        }),
{
    let up: nat = if slashes > 0 {
        (slashes - 1) as nat
    } else {
        0
    };
    let target = Seq::new(lead, |i: int| '/') + below;
    law_leading_is_taken_off(target, '/');
    let rest = without_leading(target, '/');
    let off = target.len() - rest.len();
    if off < lead {
        assert(rest[0] == target[off]);
    }
    if off > lead {
        assert(target[lead as int] == below[0]);
    }
    assert(rest =~= below);
    lemma_climbs(up);
    let r = rerooted(target, slashes);
    assert(r == repeated("../"@, up) + below);
    assert(r.skip((3 * up) as int) =~= below);
}

proof fn lemma_climbs(n: nat)
    ensures
        repeated("../"@, n).len() == 3 * n,
        forall|j: int|
            0 <= j < 3 * n ==> repeated("../"@, n)[j] == (if j % 3 == 2 {
                '/'
            } else {
                '.'
            }),
    decreases n,
{
    reveal_strlit("../");
    if n > 0 {
        lemma_climbs((n - 1) as nat);
    }
}

/// What stands before and after the first place of a pattern: where a text is
/// put together around one, with none before it, its two parts.
pub proof fn law_a_text_parts_at_the_pattern(a: Seq<char>, pattern: Seq<char>, b: Seq<char>)
    requires
        forall|j: int| j < a.len() ==> !occurs_at(a + pattern + b, pattern, j),
    ensures
        before(a + pattern + b, pattern) == a,
        after(a + pattern + b, pattern) == Some(b),
{
    let s = a + pattern + b;
    assert(s.subrange(a.len() as int, (a.len() + pattern.len()) as int) =~= pattern);
    assert(first_at(s, pattern, a.len() as int));
    lemma_first_at(s, pattern, a.len() as int);
    assert(s.take(a.len() as int) =~= a);
    assert(s.skip((a.len() + pattern.len()) as int) =~= b);
}

/// A text without the pattern is all before it, and has nothing after it.
pub proof fn law_a_text_without_the_pattern(s: Seq<char>, pattern: Seq<char>)
    requires
        forall|j: int| !occurs_at(s, pattern, j),
    ensures
        before(s, pattern) == s,
        after(s, pattern) is None,
{
}

/// What three columns for reading, writing and executing are worth, in the
/// digit that they stand for.
pub open spec fn columns_worth(read: char, write: char, execute: char) -> int {
    (if read == 'r' {
        4int
    } else {
        0
    }) + (if write == 'w' {
        2int
    } else {
        0
    }) + (if execute == 'x' || execute == 's' || execute == 't' {
        1int
    } else {
        0
    })
}

/// What an execute column says of its special bit.
pub open spec fn special_worth(execute: char) -> int {
    if execute == 's' || execute == 'S' || execute == 't' || execute == 'T' {
        1
    } else {
        0
    }
}

/// Whether three columns are written as such; `mark` and `bare` stand for the
/// special bit.
pub open spec fn are_columns(
    read: char,
    write: char,
    execute: char,
    mark: char,
    bare: char,
) -> bool {
    &&& read == 'r' || read == '-'
    &&& write == 'w' || write == '-'
    &&& execute == 'x' || execute == mark || execute == bare || execute == '-'
}

#[verifier::rlimit(40)]
proof fn lemma_columns(
    read: char,
    write: char,
    execute: char,
    mark: char,
    bare: char,
    unit: u32,
    special: u32,
)
    requires
        (mark == 's' && bare == 'S') || (mark == 't' && bare == 'T'),
        unit == 1 || unit == 8 || unit == 64,
        special <= 0o4000,
    ensures
        ({
            let bits = both(
                both(
                    flag_bits(read, 'r', (4 * unit) as u32),
                    flag_bits(write, 'w', (2 * unit) as u32),
                ),
                execute_bits(execute, unit, mark, bare, special),
            );
            &&& bits is Some <==> are_columns(read, write, execute, mark, bare)
            &&& bits matches Some(b) ==> b == columns_worth(read, write, execute) * unit
                + special_worth(execute) * special
        }),
{
    assert(columns_worth(read, write, execute) * unit == (if read == 'r' {
        4 * unit
    } else {
        0
    }) + (if write == 'w' {
        2 * unit
    } else {
        0
    }) + (if execute == 'x' || execute == 's' || execute == 't' {
        unit as int
    } else {
        0
    })) by {
        if unit == 1 {
        } else if unit == 8 {
        } else {
            assert(unit == 64);
        }
    }
}

/// The mode is what its ten characters say: a type, and read, write and execute
/// for the user, the group and others, with the three special bits in the
/// execute columns. A line that starts otherwise has none.
#[verifier::rlimit(40)]
pub proof fn law_modes_are_read_column_by_column(line: Seq<char>)
    ensures
        mode_in(line) is Some <==> {
            &&& line.len() >= 11 && line[10] == ' '
            &&& type_worth(line[0]) > 0
            &&& are_columns(line[1], line[2], line[3], 's', 'S')
            &&& are_columns(line[4], line[5], line[6], 's', 'S')
            &&& are_columns(line[7], line[8], line[9], 't', 'T')
        },
        mode_in(line) matches Some(mode) ==> mode == type_worth(line[0]) * 0o10000
            + special_worth(line[3]) * 0o4000 + special_worth(line[6]) * 0o2000 + special_worth(
            line[9],
        ) * 0o1000 + columns_worth(line[1], line[2], line[3]) * 0o100 + columns_worth(
            line[4],
            line[5],
            line[6],
        ) * 0o10 + columns_worth(line[7], line[8], line[9]),
{
    if line.len() >= 11 && line[10] == ' ' {
        lemma_columns(line[1], line[2], line[3], 's', 'S', 0o100, 0o4000);
        lemma_columns(line[4], line[5], line[6], 's', 'S', 0o10, 0o2000);
        lemma_columns(line[7], line[8], line[9], 't', 'T', 0o1, 0o1000);
    }
}

/// The digit that stands for a type of file in a mode.
pub open spec fn type_worth(c: char) -> int {
    match c {
        'p' => 0o01,
        'c' => 0o02,
        'd' => 0o04,
        'b' => 0o06,
        '-' => 0o10,
        'l' => 0o12,
        's' => 0o14,
        _ => 0,
    }
}

/// A digit.
pub open spec fn is_digit(c: char) -> bool {
    48 <= (c as int) <= 57
}

/// `2024-01-15 10:30`, in whatever digits, stands in `line` at `at`, behind the
/// mode and between two spaces.
pub open spec fn dated(line: Seq<char>, at: int) -> bool {
    &&& at >= 11 && line.len() >= at + 17
    &&& line[at - 1] == ' ' && line[at + 16] == ' '
    &&& is_digit(line[at]) && is_digit(line[at + 1]) && is_digit(line[at + 2]) && is_digit(
        line[at + 3],
    )
    &&& line[at + 4] == '-' && is_digit(line[at + 5]) && is_digit(line[at + 6])
    &&& line[at + 7] == '-' && is_digit(line[at + 8]) && is_digit(line[at + 9])
    &&& line[at + 10] == ' ' && is_digit(line[at + 11]) && is_digit(line[at + 12])
    &&& line[at + 13] == ':' && is_digit(line[at + 14]) && is_digit(line[at + 15])
}

proof fn lemma_dated(line: Seq<char>, at: int)
    ensures
        stamp_at(line, at) == dated(line, at),
{
    if stamp_at(line, at) {
        assert(stamp_char(line[at + 0], 0) && stamp_char(line[at + 1], 1) && stamp_char(
            line[at + 2],
            2,
        ) && stamp_char(line[at + 3], 3) && stamp_char(line[at + 4], 4) && stamp_char(
            line[at + 5],
            5,
        ) && stamp_char(line[at + 6], 6) && stamp_char(line[at + 7], 7));
        assert(stamp_char(line[at + 8], 8) && stamp_char(line[at + 9], 9) && stamp_char(
            line[at + 10],
            10,
        ) && stamp_char(line[at + 11], 11) && stamp_char(line[at + 12], 12) && stamp_char(
            line[at + 13],
            13,
        ) && stamp_char(line[at + 14], 14) && stamp_char(line[at + 15], 15));
    }
    if dated(line, at) {
        assert forall|k: int| 0 <= k < 16 implies stamp_char(#[trigger] line[at + k], k) by {
            assert(k == 0 || k == 1 || k == 2 || k == 3 || k == 4 || k == 5 || k == 6 || k == 7
                || k == 8 || k == 9 || k == 10 || k == 11 || k == 12 || k == 13 || k == 14 || k
                == 15);
        }
    }
}

proof fn lemma_least_stamp(line: Seq<char>, at: int) -> (first: int)
    requires
        stamp_at(line, at),
    ensures
        first_stamp(line, first),
    decreases at,
{
    if exists|j: int| j < at && stamp_at(line, j) {
        let j = choose|j: int| j < at && stamp_at(line, j);
        lemma_least_stamp(line, j)
    } else {
        at
    }
}

/// The date of a line is the first place that is written like one.
pub proof fn law_the_first_date_counts(line: Seq<char>, at: int)
    ensures
        stamp_in(line) == Some(at) <==> dated(line, at) && forall|j: int|
            j < at ==> !#[trigger] dated(line, j),
        stamp_in(line) is None <==> forall|j: int| !#[trigger] dated(line, j),
{
    assert forall|j: int| stamp_at(line, j) == #[trigger] dated(line, j) by {
        lemma_dated(line, j);
    }
    lemma_dated(line, at);
    if exists|j: int| stamp_at(line, j) {
        let j = choose|j: int| stamp_at(line, j);
        let first = lemma_least_stamp(line, j);
        lemma_first_stamp(line, first);
        assert(dated(line, first));
        if dated(line, at) && forall|j: int| j < at ==> !#[trigger] dated(line, j) {
            assert(first_stamp(line, at));
            lemma_first_stamp(line, at);
        }
        if stamp_in(line) == Some(at) {
            assert(at == first);
        }
    } else {
        assert(!dated(line, at));
    }
}

/// Where the columns before it hold no dash, as numbers and most names do not,
/// the date that was put behind them is the one that is found.
pub proof fn law_the_date_behind_the_columns_is_found(
    head: Seq<char>,
    stamp: Seq<char>,
    rest: Seq<char>,
)
    requires
        head.len() >= 11,
        forall|i: int| 11 <= i < head.len() ==> head[i] != '-',
        stamp.len() == 16,
        dated(head + stamp + rest, head.len() as int),
    ensures
        stamp_in(head + stamp + rest) == Some(head.len() as int),
{
    let line = head + stamp + rest;
    let at = head.len() as int;
    assert forall|j: int| j < at implies !#[trigger] dated(line, j) by {
        if dated(line, j) {
            assert(line[j + 4] == '-');
            if j + 4 < at {
                assert(line[j + 4] == head[j + 4]);
            } else {
                assert(is_digit(line[j + 4]));
            }
        }
    }
    law_the_first_date_counts(line, at);
}

/// The time of a date is that of the year in its first four digits and of the
/// month, day, hour and minute in the pairs behind them.
pub proof fn law_dates_are_read_digit_by_digit(line: Seq<char>, at: int)
    requires
        dated(line, at),
    ensures
        ({
            let d = |i: int| line[at + i] as int - 48;
            time_at(line, at) == seconds_to(
                d(0) * 1000 + d(1) * 100 + d(2) * 10 + d(3),
                d(5) * 10 + d(6),
                d(8) * 10 + d(9),
                d(11) * 10 + d(12),
                d(14) * 10 + d(15),
            )
        }),
{
    lemma_four_digits(line, at);
    lemma_two_digits(line, at + 5);
    lemma_two_digits(line, at + 8);
    lemma_two_digits(line, at + 11);
    lemma_two_digits(line, at + 14);
}

proof fn lemma_two_digits(line: Seq<char>, at: int)
    requires
        0 <= at && at + 2 <= line.len(),
        is_digit(line[at]),
        is_digit(line[at + 1]),
    ensures
        number_between(line, at, at + 2) == (line[at] as int - 48) * 10 + (line[at + 1] as int
            - 48),
{
    let none = Seq::<char>::empty();
    law_a_digit_more(none, line[at], 10);
    law_a_digit_more(none.push(line[at]), line[at + 1], 10);
    assert(line.subrange(at, at + 2) =~= none.push(line[at]).push(line[at + 1]));
}

proof fn lemma_four_digits(line: Seq<char>, at: int)
    requires
        0 <= at && at + 4 <= line.len(),
        is_digit(line[at]),
        is_digit(line[at + 1]),
        is_digit(line[at + 2]),
        is_digit(line[at + 3]),
    ensures
        number_between(line, at, at + 4) == (line[at] as int - 48) * 1000 + (line[at + 1] as int
            - 48) * 100 + (line[at + 2] as int - 48) * 10 + (line[at + 3] as int - 48),
{
    let one = Seq::<char>::empty().push(line[at]);
    let two = one.push(line[at + 1]);
    let three = two.push(line[at + 2]);
    law_a_digit_more(Seq::empty(), line[at], 10);
    law_a_digit_more(one, line[at + 1], 10);
    law_a_digit_more(two, line[at + 2], 10);
    law_a_digit_more(three, line[at + 3], 10);
    assert(line.subrange(at, at + 4) =~= three.push(line[at + 3]));
}

/// How long a month is.
pub open spec fn month_length(year: int, month: int) -> int {
    if month == 2 && ((year % 4 == 0 && year % 100 != 0) || year % 400 == 0) {
        29
    } else if month == 2 {
        28
    } else if month == 4 || month == 6 || month == 9 || month == 11 {
        30
    } else {
        31
    }
}

proof fn lemma_month_length(year: int, month: int)
    ensures
        month_days(year, month) == month_length(year, month),
        28 <= month_length(year, month) <= 31,
{
}

/// A time is one that a clock shows on a day that the calendar has. The hours
/// and minutes of a day add up, and a day follows a day by a day's seconds.
pub proof fn law_days_follow_each_other(
    year: int,
    month: int,
    day: int,
    hour: int,
    minute: int,
)
    ensures
        seconds_to(year, month, day, hour, minute) is Some <==> 1 <= month <= 12 && 1 <= day
            <= month_length(year, month) && 0 <= hour <= 23 && 0 <= minute <= 59,
        seconds_to(year, month, day, hour, minute) matches Some(t) ==> {
            &&& seconds_to(year, month, day, 0, 0) == Some(t - hour * 3600 - minute * 60)
            &&& day > 1 ==> seconds_to(year, month, day - 1, hour, minute) == Some(t - 86400)
        },
{
    lemma_month_length(year, month);
}

/// A month follows a month by as many days as that has.
pub proof fn law_months_follow_each_other(year: int, month: int)
    requires
        1 <= month < 12,
    ensures
        seconds_to(year, month + 1, 1, 0, 0) == Some(
            seconds_to(year, month, 1, 0, 0)->0 + month_length(year, month) * 86400,
        ),
{
    lemma_month_length(year, month);
    lemma_month_length(year, month + 1);
    assert(days_to_month(year, month + 1) == days_to_month(year, month) + month_length(
        year,
        month,
    ));
}

/// Time starts with 1970, and a year follows the last month of the one before.
pub proof fn law_years_follow_each_other(year: int)
    ensures
        seconds_to(1970, 1, 1, 0, 0) == Some(0int),
        seconds_to(year + 1, 1, 1, 0, 0) == Some(
            seconds_to(year, 12, 1, 0, 0)->0 + 31 * 86400,
        ),
{
    lemma_month_length(1970, 1);
    lemma_month_length(year + 1, 1);
    lemma_month_length(year, 12);
    lemma_december_ends_the_year(year);
    lemma_a_year_is_its_days(year);
    assert(days_to_year(1970) == 0);
    assert(days_to_month(1970, 1) == 0);
    assert(days_to_month(year + 1, 1) == 0);
}

proof fn lemma_december_ends_the_year(year: int)
    ensures
        days_to_month(year, 12) + 31 == year_days(year),
{
    reveal_with_fuel(days_to_month, 13);
}

proof fn lemma_a_year_is_its_days(year: int)
    ensures
        days_to_year(year + 1) == days_to_year(year) + year_days(year),
{
    reveal_with_fuel(days_to_year, 2);
}

/// Words are what stands between spaces, in order.
pub proof fn law_words_stand_between_spaces(word: Seq<char>, rest: Seq<char>)
    requires
        word.len() > 0,
        forall|i: int| 0 <= i < word.len() ==> word[i] != ' ',
    ensures
        words_in(Seq::empty()) == Seq::<Seq<char>>::empty(),
        words_in(seq![' '] + rest) == words_in(rest),
        words_in(word) == seq![word],
        words_in(word + seq![' '] + rest) == seq![word] + words_in(rest),
{
    assert((seq![' '] + rest).skip(1) =~= rest);
    lemma_word_end(word, Seq::empty());
    assert(word + Seq::empty() =~= word);
    lemma_word_end(word, seq![' '] + rest);
    let text = word + (seq![' '] + rest);
    assert(word + seq![' '] + rest =~= text);
    assert(text[0] == word[0]);
    assert(text.take(word.len() as int) =~= word);
    assert(text.skip(word.len() as int) =~= seq![' '] + rest);
}

proof fn lemma_word_end(word: Seq<char>, rest: Seq<char>)
    requires
        forall|i: int| 0 <= i < word.len() ==> word[i] != ' ',
        rest.len() > 0 ==> rest[0] == ' ',
    ensures
        word_end(word + rest) == word.len(),
    decreases word.len(),
{
    let text = word + rest;
    if word.len() == 0 {
        assert(text =~= rest);
    } else {
        assert(text[0] == word[0]);
        assert(text.skip(1) =~= word.skip(1) + rest);
        assert forall|i: int| 0 <= i < word.skip(1).len() implies word.skip(1)[i] != ' ' by {
            assert(word.skip(1)[i] == word[i + 1]);
        }
        lemma_word_end(word.skip(1), rest);
    }
}

/// A column is a number where it is written as one and fits; a number is its
/// own owner, and a name counts as root.
pub proof fn law_columns_are_numbers(n: nat, word: Seq<char>)
    ensures
        n <= u64::MAX ==> word_number(decimal(n)) == Some(n as u64),
        n > u64::MAX ==> word_number(decimal(n)) is None,
        n <= u32::MAX ==> word_number_32(decimal(n)) == Some(n as u32),
        n > u32::MAX ==> word_number_32(decimal(n)) is None,
        n <= u32::MAX ==> owner_id(decimal(n)) == n,
        n > u32::MAX ==> owner_id(decimal(n)) == 0,
        word.len() == 0 || !all_digits(word, 10) ==> {
            &&& word_number(word) is None
            &&& word_number_32(word) is None
            &&& owner_id(word) == 0
        },
        word.len() > 0 && all_digits(word, 10) && digits_value(word, 10) <= u64::MAX
            ==> word_number(word) == Some(digits_value(word, 10) as u64),
{
    law_decimal_reads_back(n);
}

/// A device number is packed so that both of its halves can be had back: the
/// low byte of the minor number, the major number, and the rest of the minor.
#[verifier::spinoff_prover]
pub proof fn law_device_numbers_are_packed(major: u64, minor: u64)
    ensures
        device_number(major, minor) is Some <==> major < 4096 && minor < 1048576,
        device_number(major, minor) matches Some(n) ==> {
            &&& n % 256 == minor % 256
            &&& (n / 256) % 4096 == major
            &&& n / 1048576 == minor / 256
            &&& n <= u32::MAX
        },
{
    if major < 4096 && minor < 1048576 {
        let low: int = minor as int % 256;
        let high: int = minor as int / 256;
        assert(minor == high * 256 + low);
        lemma_packed(low, major as int, high);
        assert(device_number(major, minor)->0 == low + major * 256 + high * 1048576);
    }
}

proof fn lemma_packed(low: int, major: int, high: int)
    requires
        0 <= low < 256,
        0 <= major < 4096,
        0 <= high < 4096,
    ensures
        (low + major * 256 + high * 1048576) % 256 == low,
        ((low + major * 256 + high * 1048576) / 256) % 4096 == major,
        (low + major * 256 + high * 1048576) / 1048576 == high,
        low + major * 256 + high * 1048576 <= u32::MAX,
{
    let n = low + major * 256 + high * 1048576;
    let middle = major + high * 4096;
    assert(n == middle * 256 + low);
    vstd::arithmetic::div_mod::lemma_fundamental_div_mod_converse(n, 256, middle, low);
    vstd::arithmetic::div_mod::lemma_fundamental_div_mod_converse(middle, 4096, high, major);
    vstd::arithmetic::div_mod::lemma_fundamental_div_mod_converse(
        n,
        1048576,
        high,
        low + major * 256,
    );
}

/// The columns of a device hold the major number with a comma and the minor
/// number.
pub proof fn law_device_columns_are_read(major: Seq<char>, minor: Seq<char>, a: u64, b: u64)
    ensures
        device_columns(decimal(a as nat) + seq![','], decimal(b as nat)) == device_number(a, b),
        major.len() == 0 || major.last() != ',' ==> device_columns(major, minor) is None,
        word_number(minor) is None ==> device_columns(major, minor) is None,
        major.len() > 0 && word_number(major.drop_last()) is None ==> device_columns(
            major,
            minor,
        ) is None,
{
    law_columns_are_numbers(a as nat, minor);
    law_columns_are_numbers(b as nat, minor);
    assert((decimal(a as nat) + seq![',']).drop_last() =~= decimal(a as nat));
}

/// A line with a mode, columns and a date says of a file what these say: from
/// four columns, its links, owner, group and size; from three the same without
/// the links, of which there is one; from two, an owner and a group alone, and
/// no size. Anything else is not read.
pub proof fn law_lines_of_files_are_read(line: Seq<char>, at: int)
    requires
        mode_in(line) is Some,
        stamp_in(line) == Some(at),
        line[0] != 'b',
        line[0] != 'c',
    ensures
        ({
            let words = words_in(line.subrange(10, at));
            let n = words.len();
            let size = word_number(words[n - 1]);
            let links = word_number_32(words[0]);
            &&& meta_in(line) is Some <==> {
                &&& time_at(line, at) is Some
                &&& (n == 2 || (n == 3 && size is Some) || (n == 4 && links is Some
                    && size is Some))
            }
            &&& meta_in(line) matches Some(meta) ==> {
                &&& meta.mode == mode_in(line)->0
                &&& meta.nlink == (if n == 4 {
                    links->0
                } else {
                    1
                })
                &&& meta.uid == owner_id(words[if n == 4 {
                    1int
                } else {
                    0
                }])
                &&& meta.gid == owner_id(words[if n == 4 {
                    2int
                } else {
                    1
                }])
                &&& meta.size == (if n == 2 {
                    0
                } else {
                    size->0
                })
                &&& meta.rdev == 0
                &&& meta.mtime.nanos == 0
                &&& meta.mtime.secs == time_at(line, at)->0 as i64
                &&& meta.raw_line == line
            }
        }),
{
}

/// The line of a device has its number in place of a size.
pub proof fn law_lines_of_devices_are_read(line: Seq<char>, at: int)
    requires
        mode_in(line) is Some,
        stamp_in(line) == Some(at),
        line[0] == 'b' || line[0] == 'c',
    ensures
        ({
            let words = words_in(line.subrange(10, at));
            let n = words.len();
            let number = device_columns(words[n - 2], words[n - 1]);
            let links = word_number_32(words[0]);
            &&& meta_in(line) is Some <==> {
                &&& time_at(line, at) is Some
                &&& number is Some
                &&& (n == 4 || (n == 5 && links is Some))
            }
            &&& meta_in(line) matches Some(meta) ==> {
                &&& meta.mode == mode_in(line)->0
                &&& meta.nlink == (if n == 5 {
                    links->0
                } else {
                    1
                })
                &&& meta.uid == owner_id(words[if n == 5 {
                    1int
                } else {
                    0
                }])
                &&& meta.gid == owner_id(words[if n == 5 {
                    2int
                } else {
                    1
                }])
                &&& meta.size == 0
                &&& meta.rdev == number->0
                &&& meta.mtime.nanos == 0
                &&& meta.mtime.secs == time_at(line, at)->0 as i64
                &&& meta.raw_line == line
            }
        }),
{
}

/// A line without a mode or without a date says nothing of a file.
pub proof fn law_other_lines_say_nothing(line: Seq<char>)
    requires
        mode_in(line) is None || stamp_in(line) is None,
    ensures
        meta_in(line) is None,
        stamp_in(line) is None ==> name_in(line) is None,
{
}

/// The line that `ls -l` prints for a file of `size` bytes gives that size,
/// with the owner, the group and the number of links in its columns, and
/// whatever stands behind its date is its name.
#[verifier::rlimit(40)]
pub proof fn law_a_printed_line_is_read_back(
    mode: Seq<char>,
    nlink: u32,
    uid: u32,
    gid: u32,
    size: u64,
    stamp: Seq<char>,
    name: Seq<char>,
)
    requires
        mode.len() == 10,
        mode[0] != 'b' && mode[0] != 'c' && mode[0] != 'l',
        mode_in(mode + seq![' ']) is Some,
        stamp.len() == 16,
        dated(Seq::new(11, |i: int| ' ') + stamp + seq![' '], 11),
        time_at(stamp, 0) is Some,
        name.len() > 0,
    ensures
        ({
            let gap = seq![' '];
            let line = mode + gap + decimal(nlink as nat) + gap + decimal(uid as nat) + gap
                + decimal(gid as nat) + gap + decimal(size as nat) + gap + stamp + gap + name;
            &&& meta_in(line) matches Some(meta)
            &&& meta.size == size
            &&& meta.nlink == nlink
            &&& meta.uid == uid
            &&& meta.gid == gid
            &&& meta.rdev == 0
            &&& meta.mode == mode_in(mode + gap)->0
            &&& meta.mtime.secs == time_at(stamp, 0)->0 as i64
            &&& meta.raw_line == line
            &&& name_in(line) == Some(name)
        }),
{
    let gap = seq![' '];
    let a = decimal(nlink as nat);
    let b = decimal(uid as nat);
    let c = decimal(gid as nat);
    let d = decimal(size as nat);
    let head = mode + gap + (a + gap + (b + gap + (c + gap + d))) + gap;
    let rest = gap + name;
    let line = mode + gap + a + gap + b + gap + c + gap + d + gap + stamp + gap + name;
    assert(line =~= head + stamp + rest);
    lemma_printed_head(mode, nlink as nat, uid as nat, gid as nat, size as nat);
    lemma_printed_stamp(head, stamp, rest);
    law_the_date_behind_the_columns_is_found(head, stamp, rest);
    lemma_printed_start(mode, head, stamp, name);
    lemma_printed_counts(
        line,
        head.len() as int,
        nlink,
        uid,
        gid,
        size,
    );
}

/// The mode and the name of a line are those that it was put together from.
proof fn lemma_printed_start(
    mode: Seq<char>,
    head: Seq<char>,
    stamp: Seq<char>,
    name: Seq<char>,
)
    requires
        mode.len() == 10,
        mode[0] != 'l',
        head.len() >= 11,
        head.take(11) == mode + seq![' '],
        stamp.len() == 16,
        name.len() > 0,
        stamp_in(head + stamp + (seq![' '] + name)) == Some(head.len() as int),
    ensures
        ({
            let line = head + stamp + (seq![' '] + name);
            &&& mode_in(line) == mode_in(mode + seq![' '])
            &&& name_in(line) == Some(name)
            &&& line[0] == mode[0]
            &&& line.subrange(10, head.len() as int) == head.subrange(10, head.len() as int)
        }),
{
    let line = head + stamp + (seq![' '] + name);
    let plain = mode + seq![' '];
    assert forall|i: int| 0 <= i < 11 implies #[trigger] line[i] == plain[i] by {
        assert(head.take(11)[i] == head[i]);
    }
    assert(line.subrange(10, head.len() as int) =~= head.subrange(10, head.len() as int));
    assert(line.skip(head.len() as int + 17) =~= name);
}

/// Four columns of numbers are the links, the owner, the group and the size.
proof fn lemma_printed_counts(line: Seq<char>, at: int, nlink: u32, uid: u32, gid: u32, size: u64)
    requires
        mode_in(line) is Some,
        stamp_in(line) == Some(at),
        time_at(line, at) is Some,
        line[0] != 'b' && line[0] != 'c',
        words_in(line.subrange(10, at)) == seq![
            decimal(nlink as nat),
            decimal(uid as nat),
            decimal(gid as nat),
            decimal(size as nat),
        ],
    ensures
        (meta_in(line) matches Some(meta) && meta.size == size && meta.nlink == nlink && meta.uid
            == uid && meta.gid == gid && meta.rdev == 0 && meta.mode == mode_in(line)->0
            && meta.mtime.secs == time_at(line, at)->0 as i64 && meta.raw_line == line),
{
    law_columns_are_numbers(nlink as nat, Seq::empty());
    law_columns_are_numbers(uid as nat, Seq::empty());
    law_columns_are_numbers(gid as nat, Seq::empty());
    law_columns_are_numbers(size as nat, Seq::empty());
    law_lines_of_files_are_read(line, at);
}

/// What stands before the date in a line with four columns of numbers.
#[verifier::rlimit(40)]
proof fn lemma_printed_head(mode: Seq<char>, nlink: nat, uid: nat, gid: nat, size: nat)
    requires
        mode.len() == 10,
    ensures
        ({
            let gap = seq![' '];
            let a = decimal(nlink);
            let b = decimal(uid);
            let c = decimal(gid);
            let d = decimal(size);
            let head = mode + gap + (a + gap + (b + gap + (c + gap + d))) + gap;
            &&& head.len() >= 11
            &&& head.last() == ' '
            &&& head.take(11) == mode + gap
            &&& forall|i: int| 11 <= i < head.len() ==> head[i] != '-'
            &&& words_in(head.subrange(10, head.len() as int)) == seq![a, b, c, d]
        }),
{
    let gap = seq![' '];
    let a = decimal(nlink);
    let b = decimal(uid);
    let c = decimal(gid);
    let d = decimal(size);
    let tail = d + gap + Seq::<char>::empty();
    let third = c + gap + tail;
    let second = b + gap + third;
    let first = a + gap + second;
    let head = mode + gap + (a + gap + (b + gap + (c + gap + d))) + gap;
    lemma_digits_are_words(nlink);
    lemma_digits_are_words(uid);
    lemma_digits_are_words(gid);
    lemma_digits_are_words(size);
    lemma_no_dash(d, Seq::empty());
    lemma_no_dash(c, tail);
    lemma_no_dash(b, third);
    lemma_no_dash(a, second);
    assert(head =~= mode + gap + first);
    assert forall|i: int| 11 <= i < head.len() implies head[i] != '-' by {
        assert(head[i] == first[i - 11]);
    }
    assert(head.take(11) =~= mode + gap);
    assert(head.subrange(10, head.len() as int) =~= gap + first);
    law_words_stand_between_spaces(a, first);
    law_words_stand_between_spaces(a, second);
    law_words_stand_between_spaces(b, third);
    law_words_stand_between_spaces(c, tail);
    law_words_stand_between_spaces(d, Seq::empty());
    assert(seq![d] + Seq::<Seq<char>>::empty() =~= seq![d]);
    assert(words_in(first) =~= seq![a, b, c, d]);
}

proof fn lemma_no_dash(word: Seq<char>, rest: Seq<char>)
    requires
        forall|i: int| 0 <= i < word.len() ==> word[i] != '-',
        forall|i: int| 0 <= i < rest.len() ==> rest[i] != '-',
    ensures
        ({
            let text = word + seq![' '] + rest;
            forall|i: int| 0 <= i < text.len() ==> text[i] != '-'
        }),
{
}

/// A date keeps its time wherever it stands.
proof fn lemma_printed_stamp(head: Seq<char>, stamp: Seq<char>, rest: Seq<char>)
    requires
        head.len() >= 11,
        head.last() == ' ',
        stamp.len() == 16,
        dated(Seq::new(11, |i: int| ' ') + stamp + seq![' '], 11),
        rest.len() > 0,
        rest[0] == ' ',
    ensures
        dated(head + stamp + rest, head.len() as int),
        time_at(head + stamp + rest, head.len() as int) == time_at(stamp, 0),
{
    let line = head + stamp + rest;
    let at = head.len() as int;
    let alone = Seq::new(11, |i: int| ' ') + stamp + seq![' '];
    assert forall|i: int| 0 <= i < 16 implies #[trigger] line[at + i] == alone[11 + i] by {}
    assert(line[at] == alone[11]);
    assert(line[at + 16] == ' ');
    assert(line[at - 1] == ' ');
    assert(line.subrange(at, at + 4) =~= stamp.subrange(0, 4));
    assert(line.subrange(at + 5, at + 7) =~= stamp.subrange(5, 7));
    assert(line.subrange(at + 8, at + 10) =~= stamp.subrange(8, 10));
    assert(line.subrange(at + 11, at + 13) =~= stamp.subrange(11, 13));
    assert(line.subrange(at + 14, at + 16) =~= stamp.subrange(14, 16));
}

proof fn lemma_digits_are_words(n: nat)
    ensures
        decimal(n).len() > 0,
        forall|i: int| 0 <= i < decimal(n).len() ==> decimal(n)[i] != ' ' && decimal(n)[i] != '-',
{
    law_decimal_reads_back(n);
    let d = decimal(n);
    assert forall|i: int| 0 <= i < d.len() implies d[i] != ' ' && d[i] != '-' by {
        assert(digit_value(d[i], 10) is Some);
    }
}

/// A name is all that follows the date; that of a link ends at the first arrow.
/// Where nothing is left there is none.
pub proof fn law_names_follow_the_date(line: Seq<char>, at: int, arrow: int)
    requires
        stamp_in(line) == Some(at),
        0 <= at && at + 17 <= line.len(),
    ensures
        ({
            let rest = line.subrange(at + 17, line.len() as int);
            &&& line[0] != 'l' && rest.len() > 0 ==> name_in(line) == Some(rest)
            &&& line[0] != 'l' && rest.len() == 0 ==> name_in(line) is None
            &&& line[0] == 'l' && first_at(rest, " -> "@, arrow) ==> name_in(line) == (if arrow
                > 0 {
                Some(line.subrange(at + 17, at + 17 + arrow))
            } else {
                None
            })
            &&& line[0] == 'l' && (forall|j: int| !occurs_at(rest, " -> "@, j)) && rest.len() > 0
                ==> name_in(line) == Some(rest)
        }),
{
    let rest = line.subrange(at + 17, line.len() as int);
    assert(line.skip(at + 17) =~= rest);
    if first_at(rest, " -> "@, arrow) {
        lemma_first_at(rest, " -> "@, arrow);
        assert(rest.take(arrow) =~= line.subrange(at + 17, at + 17 + arrow));
    }
}

/// Metadata says what it holds.
pub proof fn law_metadata_says_what_it_holds(meta: FileMeta)
    ensures
        meta@.mode == meta.mode,
        meta@.nlink == meta.nlink,
        meta@.uid == meta.uid,
        meta@.gid == meta.gid,
        meta@.size == meta.size,
        meta@.rdev == meta.rdev,
        meta@.mtime == meta.mtime,
        meta@.raw_line == meta.raw_line@,
{
}

} // verus!

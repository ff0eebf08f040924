//! Case-insensitive recognition of the English weekday and month names.
//!
//! The names are plain ASCII, so folding the ASCII uppercase letters is
//! exactly case-insensitive matching for them.

use vstd::prelude::*;

verus! {

/// `a` reads as the lowercase reference character `b` when folded.
pub open spec fn char_folds_to(a: char, b: char) -> bool {
    a == b || ('A' <= a && a <= 'Z' && a as int + 32 == b as int)
}

/// `s` reads as the all-lowercase name `name` under ASCII case folding.
pub open spec fn matches_name(s: Seq<char>, name: Seq<char>) -> bool {
    s.len() == name.len() && forall|i: int|
        0 <= i < s.len() ==> char_folds_to(#[trigger] s[i], name[i])
}

/// Month number, January = 1 through December = 12, of a month name;
/// 0 when `s` is no month name.
pub open spec fn month_from_name(s: Seq<char>) -> int {
    if matches_name(s, "january"@) {
        1
    } else if matches_name(s, "february"@) {
        2
    } else if matches_name(s, "march"@) {
        3
    } else if matches_name(s, "april"@) {
        4
    } else if matches_name(s, "may"@) {
        5
    } else if matches_name(s, "june"@) {
        6
    } else if matches_name(s, "july"@) {
        7
    } else if matches_name(s, "august"@) {
        8
    } else if matches_name(s, "september"@) {
        9
    } else if matches_name(s, "october"@) {
        10
    } else if matches_name(s, "november"@) {
        11
    } else if matches_name(s, "december"@) {
        12
    } else {
        0
    }
}

/// Weekday number, Monday = 0 through Sunday = 6, of a weekday name;
/// 7 when `s` is no weekday name.
pub open spec fn weekday_from_name(s: Seq<char>) -> int {
    if matches_name(s, "monday"@) {
        0
    } else if matches_name(s, "tuesday"@) {
        1
    } else if matches_name(s, "wednesday"@) {
        2
    } else if matches_name(s, "thursday"@) {
        3
    } else if matches_name(s, "friday"@) {
        4
    } else if matches_name(s, "saturday"@) {
        5
    } else if matches_name(s, "sunday"@) {
        6
    } else {
        7
    }
}

/// Whether `s` reads as `name` under ASCII case folding.
fn str_matches_name(s: &str, name: &str) -> (r: bool)
    ensures
        r == matches_name(s@, name@),
{
    let n = s.unicode_len();
    let m = name.unicode_len();
    if n != m {
        return false;
    }
    let mut i: usize = 0;
    while i < n
        invariant
            0 <= i <= n,
            n == s@.len(),
            n == name@.len(),
            forall|j: int| 0 <= j < i ==> char_folds_to(#[trigger] s@[j], name@[j]),
        decreases n - i,
    {
        let a = s.get_char(i) as u32;
        let b = name.get_char(i) as u32;
        if !(a == b || (65 <= a && a <= 90 && a + 32 == b)) {
            return false;
        }
        i = i + 1;
    }
    true
}

/// Month number of a month name, 0 when `s` is none.
pub fn month_from_name_exec(s: &str) -> (r: u8)
    ensures
        r == month_from_name(s@),
{
    if str_matches_name(s, "january") {
        1
    } else if str_matches_name(s, "february") {
        2
    } else if str_matches_name(s, "march") {
        3
    } else if str_matches_name(s, "april") {
        4
    } else if str_matches_name(s, "may") {
        5
    } else if str_matches_name(s, "june") {
        6
    } else if str_matches_name(s, "july") {
        7
    } else if str_matches_name(s, "august") {
        8
    } else if str_matches_name(s, "september") {
        9
    } else if str_matches_name(s, "october") {
        10
    } else if str_matches_name(s, "november") {
        11
    } else if str_matches_name(s, "december") {
        12
    } else {
        0
    }
}

/// Weekday number of a weekday name, 7 when `s` is none.
pub fn weekday_from_name_exec(s: &str) -> (r: u8)
    ensures
        r == weekday_from_name(s@),
{
    if str_matches_name(s, "monday") {
        0
    } else if str_matches_name(s, "tuesday") {
        1
    } else if str_matches_name(s, "wednesday") {
        2
    } else if str_matches_name(s, "thursday") {
        3
    } else if str_matches_name(s, "friday") {
        4
    } else if str_matches_name(s, "saturday") {
        5
    } else if str_matches_name(s, "sunday") {
        6
    } else {
        7
    }
}

} // verus!

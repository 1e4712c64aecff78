//! Feature names and the directory names that carry them.
//!
//! A feature directory is named `<date>-<feature-name>`, where the date is
//! written `YYYY-MM-DD`; the feature name is recovered as everything after
//! the third dash.

use vstd::prelude::*;
use crate::text::{
    append_str, char_is_lowercase, char_is_numeric, chars_of, contains_chars, contains_text,
    is_digit, is_lowercase, is_numeric, push_char, string_from_range,
};

verus! {

/// A character allowed in a feature name: a lowercase letter, a digit or a dash.
pub open spec fn is_feature_name_char(c: char) -> bool {
    char_is_lowercase(c) || c == '-' || char_is_numeric(c)
}

/// Kebab case as the project repository checks it: only allowed characters,
/// no dash at either end and no two dashes in a row (the empty text passes).
pub open spec fn is_kebab_case(n: Seq<char>) -> bool {
    &&& forall|i: int| 0 <= i < n.len() ==> is_feature_name_char(#[trigger] n[i])
    &&& !(n.len() > 0 && n[0] == '-')
    &&& !(n.len() > 0 && n.last() == '-')
    &&& !contains_text(n, seq!['-', '-'])
}

/// A feature name as the feature use case accepts it: non-empty kebab case.
pub open spec fn is_valid_feature_name(n: Seq<char>) -> bool {
    n.len() > 0 && is_kebab_case(n)
}

/// Whether `name` is kebab case (see `is_kebab_case`).
pub fn kebab_case(name: &str) -> (r: bool)
    ensures
        r == is_kebab_case(name@),
{
    let v = chars_of(name);
    let n = v.len();
    let mut i: usize = 0;
    while i < n
        invariant
            n == v@.len(),
            v@ == name@,
            i <= n,
            forall|j: int| 0 <= j < i ==> is_feature_name_char(#[trigger] v@[j]),
        decreases n - i,
    {
        let c = v[i];
        if !(is_lowercase(c) || c == '-' || is_numeric(c)) {
            assert(!is_feature_name_char(v@[i as int]));
            return false;
        }
        i = i + 1;
    }
    if n > 0 && (v[0] == '-' || v[n - 1] == '-') {
        return false;
    }
    let dd = vec!['-', '-'];
    assert(dd@ =~= seq!['-', '-']);
    !contains_chars(v.as_slice(), dd.as_slice())
}

/// Whether `name` is a valid feature name (see `is_valid_feature_name`).
pub fn valid_feature_name(name: &str) -> (r: bool)
    ensures
        r == is_valid_feature_name(name@),
{
    !name.is_empty() && kebab_case(name)
}

/// The text after the `k`-th dash of `s`, if `s` has that many dashes.
pub open spec fn after_dashes(s: Seq<char>, k: nat) -> Option<Seq<char>>
    decreases s.len(),
{
    if k == 0 {
        Some(s)
    } else if s.len() == 0 {
        None
    } else if s[0] == '-' {
        after_dashes(s.drop_first(), (k - 1) as nat)
    } else {
        after_dashes(s.drop_first(), k)
    }
}

/// The feature name a dated directory name carries: the text after its third
/// dash, or none when it has fewer than three dashes.
pub open spec fn feature_name_of(dir_name: Seq<char>) -> Option<Seq<char>> {
    after_dashes(dir_name, 3)
}

/// The number of dashes in `s`.
pub open spec fn dash_count(s: Seq<char>) -> nat
    decreases s.len(),
{
    if s.len() == 0 {
        0
    } else {
        (if s[0] == '-' { 1nat } else { 0nat }) + dash_count(s.drop_first())
    }
}

/// A date as the format `%Y-%m-%d` writes a year from 0 on: the year in at
/// least four digits (after a `+` from the year 10000 on), then the month
/// and the day in two digits each, with a dash before each of them.
pub open spec fn is_date_text(d: Seq<char>) -> bool {
    &&& d.len() >= 10
    &&& d[d.len() - 3] == '-'
    &&& d[d.len() - 6] == '-'
    &&& forall|i: int|
        0 <= i < d.len() && i != d.len() - 3 && i != d.len() - 6 ==> is_digit(#[trigger] d[i]) || (
        i == 0 && d[i] == '+')
}

proof fn lemma_dash_count_concat(a: Seq<char>, b: Seq<char>)
    ensures
        dash_count(a + b) == dash_count(a) + dash_count(b),
    decreases a.len(),
{
    if a.len() == 0 {
        assert(a + b =~= b);
    } else {
        assert((a + b).drop_first() =~= a.drop_first() + b);
        lemma_dash_count_concat(a.drop_first(), b);
    }
}

proof fn lemma_no_dash(s: Seq<char>)
    requires
        forall|i: int| 0 <= i < s.len() ==> s[i] != '-',
    ensures
        dash_count(s) == 0,
    decreases s.len(),
{
    if s.len() > 0 {
        assert forall|i: int| 0 <= i < s.drop_first().len() implies s.drop_first()[i] != '-' by {
            assert(s.drop_first()[i] == s[i + 1]);
        }
        lemma_no_dash(s.drop_first());
    }
}

/// A date text has exactly two dashes.
proof fn lemma_date_text_dashes(d: Seq<char>)
    requires
        is_date_text(d),
    ensures
        dash_count(d) == 2,
{
    let n = d.len() as int;
    let year = d.subrange(0, n - 6);
    let month = d.subrange(n - 5, n - 3);
    let day = d.subrange(n - 2, n);
    assert(d =~= year + seq!['-'] + month + seq!['-'] + day);
    assert forall|i: int| 0 <= i < year.len() implies year[i] != '-' by {
        assert(year[i] == d[i]);
    }
    assert forall|i: int| 0 <= i < month.len() implies month[i] != '-' by {
        assert(month[i] == d[n - 5 + i]);
    }
    assert forall|i: int| 0 <= i < day.len() implies day[i] != '-' by {
        assert(day[i] == d[n - 2 + i]);
    }
    lemma_no_dash(year);
    lemma_no_dash(month);
    lemma_no_dash(day);
    lemma_dash_count_concat(year, seq!['-']);
    lemma_dash_count_concat(year + seq!['-'], month);
    lemma_dash_count_concat(year + seq!['-'] + month, seq!['-']);
    lemma_dash_count_concat(year + seq!['-'] + month + seq!['-'], day);
    assert(dash_count(seq!['-']) == 1) by {
        let one = seq!['-'];
        assert(one[0] == '-');
        assert(one.drop_first() =~= Seq::<char>::empty());
        assert(dash_count(one.drop_first()) == 0);
    }
}

/// The directory name of a feature: `<date>-<name>`.
pub open spec fn dir_name_for(date: Seq<char>, name: Seq<char>) -> Seq<char> {
    date + seq!['-'] + name
}

/// Extracts the feature name from a dated directory name such as
/// `2024-01-01-my-feature`.
pub fn extract_feature_name(dir_name: &str) -> (r: Option<String>)
    ensures
        r matches Some(n) ==> feature_name_of(dir_name@) == Some(n@),
        r is None <==> feature_name_of(dir_name@) is None,
{
    let v = chars_of(dir_name);
    let n = v.len();
    let mut i: usize = 0;
    let mut k: usize = 0;
    assert(v@.subrange(0, n as int) =~= v@);
    while i < n && k < 3
        invariant
            n == v@.len(),
            v@ == dir_name@,
            i <= n,
            k <= 3,
            after_dashes(v@, 3) == after_dashes(v@.subrange(i as int, n as int), (3 - k) as nat),
        decreases n - i,
    {
        let ghost rest = v@.subrange(i as int, n as int);
        assert(rest.drop_first() =~= v@.subrange(i + 1, n as int));
        if v[i] == '-' {
            k = k + 1;
        }
        i = i + 1;
    }
    if k == 3 {
        Some(string_from_range(v.as_slice(), i, n))
    } else {
        assert(v@.subrange(i as int, n as int).len() == 0);
        None
    }
}

/// Builds the directory name `<date>-<name>`.
pub fn feature_dir_name(date: &str, name: &str) -> (r: String)
    ensures
        r@ == dir_name_for(date@, name@),
{
    let mut r = String::new();
    append_str(&mut r, date);
    push_char(&mut r, '-');
    append_str(&mut r, name);
    r
}

proof fn lemma_after_dashes_concat(d: Seq<char>, t: Seq<char>, k: nat)
    requires
        dash_count(d) < k,
    ensures
        after_dashes(d + t, k) == after_dashes(t, (k - dash_count(d)) as nat),
    decreases d.len(),
{
    if d.len() == 0 {
        assert(d + t =~= t);
    } else {
        assert((d + t).drop_first() =~= d.drop_first() + t);
        if d[0] == '-' {
            lemma_after_dashes_concat(d.drop_first(), t, (k - 1) as nat);
        } else {
            lemma_after_dashes_concat(d.drop_first(), t, k);
        }
    }
}

/// A feature directory named with a date that holds exactly two dashes (such
/// as `YYYY-MM-DD`) gives back exactly the feature name it was made from.
pub proof fn law_feature_name_round_trip(date: Seq<char>, name: Seq<char>)
    requires
        dash_count(date) == 2,
    ensures
        feature_name_of(dir_name_for(date, name)) == Some(name),
{
    let t = seq!['-'] + name;
    assert(dir_name_for(date, name) =~= date + t);
    lemma_after_dashes_concat(date, t, 3);
    assert(t.drop_first() =~= name);
    assert(after_dashes(name, 0) == Some(name));
}

/// A feature directory named with a date text gives back exactly the
/// feature name it was made from.
pub proof fn law_dated_feature_name_round_trip(date: Seq<char>, name: Seq<char>)
    requires
        is_date_text(date),
    ensures
        feature_name_of(dir_name_for(date, name)) == Some(name),
{
    lemma_date_text_dashes(date);
    law_feature_name_round_trip(date, name);
}

} // verus!

//! Field values of the edit form: the text typed into a field, read as the
//! value of its kind.
use vstd::prelude::*;
use vstd::string::*;
use crate::edit_items::{all_digits, digits_value, parse_usize, parse_usize_spec};
use crate::text::{decimal, decimal_string, digit_char, str_eq, views};
use crate::campaign_header::{zero_padded, zero_padded_string};
use crate::trigger::{Actions, ActionsModel};

verus! {

/// The number of seconds since midnight of the time that
/// `chrono::NaiveTime::parse_from_str` reads from `s` in format `fmt`, or
/// `None` where it reports an error.
pub uninterp spec fn parsed_time(s: Seq<char>, fmt: Seq<char>) -> Option<u32>;

/// Calls `chrono::NaiveTime::parse_from_str(s, fmt)` and takes the seconds
/// since midnight of the time read. The result is named `parsed_time`; a
/// time of day has fewer than 86400 such seconds.
#[verifier::external_body]
fn parse_time(s: &str, fmt: &str) -> (res: Option<u32>)
    ensures
        res == parsed_time(s@, fmt@),
        res matches Some(n) ==> n < 86400,
        fmt@ == "%H:%M:%S"@ ==> forall|n: nat|
            n < 86400 && #[trigger] time_text(n) == s@ ==> res == Some(n as u32),
{
    chrono::NaiveTime::parse_from_str(s, fmt).ok().map(|t| chrono::Timelike::num_seconds_from_midnight(&t))
}

/// What `str::parse::<u32>` gives: an optional '+' followed by one or more
/// decimal digits whose value fits in `u32`.
pub open spec fn parse_u32_spec(s: Seq<char>) -> Option<nat> {
    let d = if s.len() > 0 && s[0] == '+' {
        s.drop_first()
    } else {
        s
    };
    if d.len() > 0 && all_digits(d) && digits_value(d) <= u32::MAX {
        Some(digits_value(d))
    } else {
        None
    }
}

/// Reads a `u32` written in decimal, as `str::parse::<u32>` does.
pub fn parse_u32(s: &str) -> (res: Option<u32>)
    ensures
        match parse_u32_spec(s@) {
            Some(v) => res == Some(v as u32),
            None => res is None,
        },
{
    match parse_usize(s) {
        Some(n) => {
            if n <= 4294967295usize {
                Some(n as u32)
            } else {
                None
            }
        },
        None => None,
    }
}

/// The kind of an edit-form field whose value is not a floating-point number.
#[derive(Debug, Clone, Copy, PartialEq, Eq)]
pub enum EditKind {
    /// Text kept as typed (text, fixed choices, dates, action and list text).
    Text,
    /// Text where the empty text means none.
    OptionText,
    /// A whole number; text that is not one leaves the field as it was.
    Int,
    /// A time of day, kept as seconds since midnight.
    IntTime,
    /// A yes/no choice.
    Bool,
    /// A duration typed in minutes, kept in seconds.
    DurationMin,
    /// A nested set of fields, edited as a list and not as one text.
    Nested,
}

/// The value a field takes from the text typed into it.
#[derive(Debug, Clone, PartialEq)]
pub enum EditValue {
    Text(String),
    OptionText(Option<String>),
    Int(u32),
    Flag(bool),
    /// The field stays as it was.
    Unchanged,
}

/// Text that a field cannot take.
#[derive(Debug, Clone, Copy, PartialEq, Eq)]
pub enum EditError {
    /// A duration that is not a whole number of minutes.
    NotANumber,
    /// A duration whose seconds do not fit in `u32`.
    TooLarge,
    /// A time that reads neither as `%H:%M:%S` nor as `%H:%M`.
    NotATime,
    /// A nested field, which is set from a list.
    NeedsList,
}

/// The value of a field of kind `kind` from the text `value`: text as
/// typed; optional text, none when empty; a whole number, or the field left
/// as it was when the text is not one; a time of day read as `%H:%M:%S`,
/// else as `%H:%M`, in seconds since midnight; `true` exactly for the text
/// "true"; a duration of whole minutes in seconds. A nested field is set
/// from a list instead.
pub fn edit_value_from_str(kind: EditKind, value: &str) -> (res: Result<EditValue, EditError>)
    ensures
        match kind {
            EditKind::Text => res matches Ok(EditValue::Text(t)) && t@ == value@,
            EditKind::OptionText => if value@.len() == 0 {
                res == Ok::<EditValue, EditError>(EditValue::OptionText(None))
            } else {
                res matches Ok(EditValue::OptionText(Some(t))) && t@ == value@
            },
            EditKind::Int => match parse_u32_spec(value@) {
                Some(n) => res == Ok::<EditValue, EditError>(EditValue::Int(n as u32)),
                None => res == Ok::<EditValue, EditError>(EditValue::Unchanged),
            },
            EditKind::IntTime => match parsed_time(value@, "%H:%M:%S"@) {
                Some(n) => res == Ok::<EditValue, EditError>(EditValue::Int(n)),
                None => match parsed_time(value@, "%H:%M"@) {
                    Some(n) => res == Ok::<EditValue, EditError>(EditValue::Int(n)),
                    None => res == Err::<EditValue, EditError>(EditError::NotATime),
                },
            },
            EditKind::Bool => res == Ok::<EditValue, EditError>(EditValue::Flag(value@ == "true"@)),
            EditKind::DurationMin => match parse_u32_spec(value@) {
                Some(n) => if n * 60 <= u32::MAX {
                    res == Ok::<EditValue, EditError>(EditValue::Int((n * 60) as u32))
                } else {
                    res == Err::<EditValue, EditError>(EditError::TooLarge)
                },
                None => res == Err::<EditValue, EditError>(EditError::NotANumber),
            },
            EditKind::Nested => res == Err::<EditValue, EditError>(EditError::NeedsList),
        },
        forall|n: nat|
            kind == EditKind::IntTime && n < 86400 && #[trigger] time_text(n) == value@ ==> res
                == Ok::<EditValue, EditError>(EditValue::Int(n as u32)),
{
    match kind {
        EditKind::Text => Ok(EditValue::Text(value.to_owned())),
        EditKind::OptionText => {
            if value.unicode_len() == 0 {
                Ok(EditValue::OptionText(None))
            } else {
                Ok(EditValue::OptionText(Some(value.to_owned())))
            }
        },
        EditKind::Int => match parse_u32(value) {
            Some(n) => Ok(EditValue::Int(n)),
            None => Ok(EditValue::Unchanged),
        },
        EditKind::IntTime => match parse_time(value, "%H:%M:%S") {
            Some(n) => Ok(EditValue::Int(n)),
            None => match parse_time(value, "%H:%M") {
                Some(n) => Ok(EditValue::Int(n)),
                None => Err(EditError::NotATime),
            },
        },
        EditKind::Bool => Ok(EditValue::Flag(str_eq(value, "true"))),
        EditKind::DurationMin => match parse_u32(value) {
            Some(n) => {
                if n <= 71582788 {
                    Ok(EditValue::Int(n * 60))
                } else {
                    Err(EditError::TooLarge)
                }
            },
            None => Err(EditError::NotANumber),
        },
        EditKind::Nested => Err(EditError::NeedsList),
    }
}

/// A field value as the table and the edit form show it.
pub enum FieldValue {
    Text(String),
    OptionText(Option<String>),
    Int(u32),
    /// A time of day in seconds since midnight.
    Time(u32),
    /// A duration in seconds, shown in whole minutes.
    Minutes(u32),
    Flag(bool),
    List(Vec<String>),
    Actions(Actions),
}

/// `HH:MM:SS` of a time of day given in seconds since midnight, as chrono
/// formats it with `%H:%M:%S`.
pub open spec fn time_text(secs: nat) -> Seq<char> {
    zero_padded(secs / 3600, 2) + ":"@ + zero_padded((secs % 3600) / 60, 2) + ":"@ + zero_padded(secs % 60, 2)
}

/// The items joined with ", " between them.
pub open spec fn joined(v: Seq<Seq<char>>) -> Seq<char>
    decreases v.len(),
{
    if v.len() == 0 {
        Seq::empty()
    } else if v.len() == 1 {
        v[0]
    } else {
        joined(v.drop_last()) + ", "@ + v.last()
    }
}

/// The text a field value is shown as: text as it is, none as empty text,
/// numbers in decimal, times as `HH:MM:SS`, durations in whole minutes
/// (rounded down), `true` or `false`, a list with ", " between its items,
/// and trigger actions as how many there are.
pub open spec fn value_text_spec(v: FieldValue) -> Seq<char> {
    match v {
        FieldValue::Text(t) => t@,
        FieldValue::OptionText(o) => match o {
            Some(t) => t@,
            None => Seq::empty(),
        },
        FieldValue::Int(n) => decimal(n as nat),
        FieldValue::Time(n) => time_text(n as nat),
        FieldValue::Minutes(n) => decimal((n / 60) as nat),
        FieldValue::Flag(b) => if b {
            "true"@
        } else {
            "false"@
        },
        FieldValue::List(items) => joined(items@.map_values(|s: String| s@)),
        FieldValue::Actions(a) => match a@ {
            ActionsModel::One(_) => "1"@,
            ActionsModel::Many(v) => decimal(v.len()),
        },
    }
}

/// The items joined with ", " between them.
fn join_items(items: &Vec<String>) -> (s: String)
    ensures
        s@ == joined(items@.map_values(|t: String| t@)),
{
    let mut s = String::new();
    let mut i: usize = 0;
    while i < items.len()
        invariant
            i <= items@.len(),
            s@ == joined(items@.take(i as int).map_values(|t: String| t@)),
        decreases items@.len() - i,
    {
        proof {
            let prev = items@.take(i as int).map_values(|t: String| t@);
            let next = items@.take(i + 1).map_values(|t: String| t@);
            assert(next.drop_last() =~= prev);
            assert(next.last() == items@[i as int]@);
        }
        if i > 0 {
            s.append(", ");
        }
        s.append(items[i].as_str());
        i = i + 1;
    }
    assert(items@.take(i as int) =~= items@);
    s
}

/// The text a field value is shown as (see `value_text_spec`); a time must
/// be a time of day.
pub fn value_text(v: &FieldValue) -> (s: String)
    requires
        v matches FieldValue::Time(n) ==> n < 86400,
    ensures
        s@ == value_text_spec(*v),
{
    match v {
        FieldValue::Text(t) => t.clone(),
        FieldValue::OptionText(o) => match o {
            Some(t) => t.clone(),
            None => String::new(),
        },
        FieldValue::Int(n) => decimal_string(*n as u64),
        FieldValue::Time(n) => {
            let mut s = zero_padded_string((*n / 3600) as u64, 2);
            s.append(":");
            let m = zero_padded_string(((*n % 3600) / 60) as u64, 2);
            s.append(m.as_str());
            s.append(":");
            let sec = zero_padded_string((*n % 60) as u64, 2);
            s.append(sec.as_str());
            s
        },
        FieldValue::Minutes(n) => decimal_string((*n / 60) as u64),
        FieldValue::Flag(b) => if *b {
            "true".to_owned()
        } else {
            "false".to_owned()
        },
        FieldValue::List(items) => join_items(items),
        FieldValue::Actions(a) => match a {
            Actions::One(_) => "1".to_owned(),
            Actions::Many(v) => decimal_string(v.len() as u64),
        },
    }
}

/// The decimal text of a number is digits only, starts with no '+', and
/// has that number as value.
proof fn lemma_decimal_digits(n: nat)
    ensures
        decimal(n).len() > 0,
        all_digits(decimal(n)),
        digits_value(decimal(n)) == n,
        decimal(n)[0] != '+',
    decreases n,
{
    let k = n % 10;
    assert(digit_char(k) as nat - '0' as nat == k);
    if n >= 10 {
        lemma_decimal_digits(n / 10);
        let d = decimal(n);
        assert(d.drop_last() =~= decimal(n / 10));
        assert(d.last() == digit_char(k));
        assert(d[0] == decimal(n / 10)[0]);
        assert(n == (n / 10) * 10 + k);
        assert(digits_value(d) == digits_value(d.drop_last()) * 10 + (d.last() as nat - '0' as nat) as nat);
    } else {
        let d = decimal(n);
        assert(d.drop_last() =~= Seq::<char>::empty());
        assert(k == n);
        assert(d.last() == digit_char(k));
        assert(digits_value(d) == digits_value(d.drop_last()) * 10 + (d.last() as nat - '0' as nat) as nat);
        assert(digits_value(d.drop_last()) == 0);
    }
}

/// A duration shown in minutes reads back as the same duration: the text
/// that `value_text` gives for `m * 60` seconds is read by
/// `edit_value_from_str` as `m * 60` seconds.
pub proof fn law_minutes_text_round_trip(m: nat)
    requires
        m * 60 <= u32::MAX,
    ensures
        value_text_spec(FieldValue::Minutes((m * 60) as u32)) == decimal(m),
        parse_u32_spec(decimal(m)) == Some(m),
{
    assert((m * 60) / 60 == m);
    lemma_decimal_digits(m);
}

/// A flag shown as text reads back as the same flag.
pub proof fn law_flag_text_round_trip(b: bool)
    ensures
        (value_text_spec(FieldValue::Flag(b)) == "true"@) == b,
{
    reveal_strlit("true");
    reveal_strlit("false");
    assert("false"@.len() != "true"@.len());
}

/// The rows a field shows when edited as a list: each trigger action; the
/// items of a list, or one empty row for an empty list, so that there is a
/// row to type into; any other value as one row of its text.
pub open spec fn list_rows_spec(v: FieldValue) -> Seq<Seq<char>> {
    match v {
        FieldValue::Actions(a) => match a@ {
            ActionsModel::One(x) => seq![x],
            ActionsModel::Many(xs) => xs,
        },
        FieldValue::List(items) => if items@.len() == 0 {
            seq![Seq::<char>::empty()]
        } else {
            views(items@)
        },
        _ => seq![value_text_spec(v)],
    }
}

/// A copy of a list of strings.
fn copy_strings(v: &Vec<String>) -> (c: Vec<String>)
    ensures
        views(c@) == views(v@),
{
    let mut c: Vec<String> = Vec::new();
    let mut i: usize = 0;
    while i < v.len()
        invariant
            i <= v@.len(),
            views(c@) == views(v@.take(i as int)),
        decreases v@.len() - i,
    {
        let x = v[i].clone();
        assert(x@ == v@[i as int]@);
        let ghost before = c@;
        assert(views(before).len() == before.len());
        assert(views(v@.take(i as int)).len() == i);
        assert(before.len() == i);
        c.push(x);
        assert(c@ == before.push(x));
        assert forall|j: int| 0 <= j < i + 1 implies #[trigger] views(c@)[j] == views(v@.take(i + 1))[j] by {
            if j < i {
                assert(views(before)[j] == views(v@.take(i as int))[j]);
                assert(c@[j] == before[j]);
            }
        }
        assert(views(c@) =~= views(v@.take(i + 1)));
        i = i + 1;
    }
    assert(v@.take(v@.len() as int) =~= v@);
    c
}

/// The rows a field shows when edited as a list (see `list_rows_spec`); a
/// time must be a time of day.
pub fn list_rows(v: &FieldValue) -> (rows: Vec<String>)
    requires
        v matches FieldValue::Time(n) ==> n < 86400,
    ensures
        views(rows@) == list_rows_spec(*v),
{
    match v {
        FieldValue::Actions(a) => match a {
            Actions::One(x) => {
                let mut rows: Vec<String> = Vec::new();
                rows.push(x.clone());
                assert(views(rows@) =~= seq![x@]);
                rows
            },
            Actions::Many(xs) => {
                let rows = copy_strings(xs);
                assert(views(xs@) =~= crate::trigger::string_views(xs@));
                rows
            },
        },
        FieldValue::List(items) => {
            if items.len() == 0 {
                let mut rows: Vec<String> = Vec::new();
                rows.push(String::new());
                assert(views(rows@) =~= seq![Seq::<char>::empty()]);
                rows
            } else {
                copy_strings(items)
            }
        },
        _ => {
            let mut rows: Vec<String> = Vec::new();
            rows.push(value_text(v));
            assert(views(rows@) =~= seq![value_text_spec(*v)]);
            rows
        },
    }
}

/// A field edited as a list of rows.
#[derive(Debug, Clone, Copy, PartialEq, Eq)]
pub enum ListKind {
    /// Trigger actions: the rows become the list of actions.
    Actions,
    /// A list of text: the rows become the list, one empty row an empty list.
    List,
}

/// The value a list field takes from its rows: trigger actions take the
/// rows as their list; a list takes the rows, except that one empty row is
/// an empty list.
pub fn value_from_rows(kind: ListKind, rows: Vec<String>) -> (v: FieldValue)
    ensures
        match kind {
            ListKind::Actions => v matches FieldValue::Actions(Actions::Many(xs)) && views(xs@) == views(
                rows@,
            ),
            ListKind::List => v matches FieldValue::List(items) && if rows@.len() == 1 && rows@[0]@.len() == 0 {
                items@.len() == 0
            } else {
                views(items@) == views(rows@)
            },
        },
{
    match kind {
        ListKind::Actions => FieldValue::Actions(Actions::Many(rows)),
        ListKind::List => {
            if rows.len() == 1 && rows[0].unicode_len() == 0 {
                FieldValue::List(Vec::new())
            } else {
                FieldValue::List(rows)
            }
        },
    }
}

} // verus!

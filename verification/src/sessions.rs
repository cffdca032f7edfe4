//! Chat sessions and their messages.
use vstd::prelude::*;

use chrono::{Datelike, Timelike};
use crate::text::{blank, chars_of, concat, is_blank, string_of};

verus! {

/// A chat session row.
#[derive(Debug, Clone)]
pub struct Session {
    pub id: String,
    pub user_id: String,
    pub title: String,
    pub target_jd: Option<String>,
    pub created_at: String,
    pub updated_at: String,
}

/// A message row.
#[derive(Debug, Clone)]
pub struct Message {
    pub id: String,
    pub session_id: String,
    pub role: String,
    pub content: String,
    pub created_at: String,
}

/// A structured resume stored for a session.
#[derive(Debug, Clone)]
pub struct ResumeContent {
    pub session_id: String,
    pub version: i64,
    pub content_json: String,
    pub updated_at: String,
}

/// Body of a session creation.
#[derive(Debug, Clone, Default)]
pub struct CreateSessionPayload {
    pub title: Option<String>,
    pub target_jd: Option<String>,
}

/// A session as listed, with its number of messages.
#[derive(Debug, Clone)]
pub struct SessionView {
    pub id: String,
    pub user_id: String,
    pub title: String,
    pub target_jd: Option<String>,
    pub created_at: String,
    pub updated_at: String,
    pub message_count: i64,
}

/// Body of a session update; absent fields are left as they are.
#[derive(Debug, Clone, Default)]
pub struct UpdateSessionPayload {
    pub title: Option<String>,
    pub target_jd: Option<String>,
}

/// Title prefix of sessions that have not been named yet.
pub open spec fn untitled_prefix() -> Seq<char> {
    "新对话"@
}

/// The local wall-clock time (`chrono::Local::now()`) as month, day, hour
/// and minute (`Datelike::month`, `Datelike::day`, `Timelike::hour`,
/// `Timelike::minute`). Which time it is depends on the clock and the
/// machine's time zone; claimed are only the ranges chrono documents for
/// these fields.
#[verifier::external_body]
fn local_time_fields() -> (r: (u32, u32, u32, u32))
    ensures
        1 <= r.0 <= 12,
        1 <= r.1 <= 31,
        r.2 <= 23,
        r.3 <= 59,
{
    let now = chrono::Local::now();
    (now.month(), now.day(), now.hour(), now.minute())
}

pub open spec fn digit(d: nat) -> char {
    seq!['0', '1', '2', '3', '4', '5', '6', '7', '8', '9'][d as int]
}

/// A number below 100 as two decimal digits, zero-padded.
pub open spec fn two_digits(n: nat) -> Seq<char> {
    seq![digit(n / 10), digit(n % 10)]
}

/// `MM-DD HH:MM` (chrono's `%m-%d %H:%M`).
pub open spec fn time_stamp(month: nat, day: nat, hour: nat, minute: nat) -> Seq<char> {
    two_digits(month) + seq!['-'] + two_digits(day) + seq![' '] + two_digits(hour) + seq![':']
        + two_digits(minute)
}

fn push_two_digits(out: &mut Vec<char>, n: u32)
    requires
        n < 100,
    ensures
        final(out)@ == old(out)@ + two_digits(n as nat),
{
    let digits: [char; 10] = ['0', '1', '2', '3', '4', '5', '6', '7', '8', '9'];
    assert(digits@ =~= seq!['0', '1', '2', '3', '4', '5', '6', '7', '8', '9']);
    out.push(digits[(n / 10) as usize]);
    out.push(digits[(n % 10) as usize]);
    assert(out@ =~= old(out)@ + two_digits(n as nat)) by {
        assert(two_digits(n as nat) == seq![digit((n / 10) as nat), digit((n % 10) as nat)]);
    }
}

/// Renders a time as `MM-DD HH:MM` (see [`time_stamp`]): 11 characters.
pub fn format_time_stamp(month: u32, day: u32, hour: u32, minute: u32) -> (s: String)
    requires
        month < 100,
        day < 100,
        hour < 100,
        minute < 100,
    ensures
        s@ == time_stamp(month as nat, day as nat, hour as nat, minute as nat),
        s@.len() == 11,
{
    let mut out: Vec<char> = Vec::new();
    push_two_digits(&mut out, month);
    out.push('-');
    push_two_digits(&mut out, day);
    out.push(' ');
    push_two_digits(&mut out, hour);
    out.push(':');
    push_two_digits(&mut out, minute);
    assert(out@ =~= time_stamp(month as nat, day as nat, hour as nat, minute as nat));
    string_of(out.as_slice())
}

/// The number two decimal digit characters spell.
pub open spec fn two_digit_value(tens: char, ones: char) -> int {
    (tens as u32 - '0' as u32) * 10 + (ones as u32 - '0' as u32)
}

proof fn lemma_digit_value(d: nat)
    requires
        d < 10,
    ensures
        digit(d) as u32 - '0' as u32 == d,
{
    let t = seq!['0', '1', '2', '3', '4', '5', '6', '7', '8', '9'];
    assert(digit(d) == t[d as int]);
    if d == 0 {} else if d == 1 {} else if d == 2 {} else if d == 3 {} else if d == 4 {
    } else if d == 5 {} else if d == 6 {} else if d == 7 {} else if d == 8 {} else {}
}

proof fn lemma_two_digits_value(n: nat)
    requires
        n < 100,
    ensures
        two_digit_value(two_digits(n)[0], two_digits(n)[1]) == n,
{
    lemma_digit_value(n / 10);
    lemma_digit_value(n % 10);
}

/// The stamp reads back as the time it was made from: `MM-DD HH:MM`, whose
/// digit pairs spell the month, day, hour and minute.
pub proof fn law_time_stamp_reads_back(month: nat, day: nat, hour: nat, minute: nat)
    requires
        month < 100,
        day < 100,
        hour < 100,
        minute < 100,
    ensures
        time_stamp(month, day, hour, minute).len() == 11,
        two_digit_value(time_stamp(month, day, hour, minute)[0], time_stamp(month, day, hour, minute)[1])
            == month,
        time_stamp(month, day, hour, minute)[2] == '-',
        two_digit_value(time_stamp(month, day, hour, minute)[3], time_stamp(month, day, hour, minute)[4])
            == day,
        time_stamp(month, day, hour, minute)[5] == ' ',
        two_digit_value(time_stamp(month, day, hour, minute)[6], time_stamp(month, day, hour, minute)[7])
            == hour,
        time_stamp(month, day, hour, minute)[8] == ':',
        two_digit_value(time_stamp(month, day, hour, minute)[9], time_stamp(month, day, hour, minute)[10])
            == minute,
{
    lemma_two_digits_value(month);
    lemma_two_digits_value(day);
    lemma_two_digits_value(hour);
    lemma_two_digits_value(minute);
    let s = time_stamp(month, day, hour, minute);
    assert(s[0] == two_digits(month)[0] && s[1] == two_digits(month)[1]);
    assert(s[3] == two_digits(day)[0] && s[4] == two_digits(day)[1]);
    assert(s[6] == two_digits(hour)[0] && s[7] == two_digits(hour)[1]);
    assert(s[9] == two_digits(minute)[0] && s[10] == two_digits(minute)[1]);
}

/// Default title of a new session: `新对话 · ` followed by the local time
/// as `MM-DD HH:MM`.
pub fn default_session_title() -> (t: String)
    ensures
        exists|month: nat, day: nat, hour: nat, minute: nat|
            #![trigger time_stamp(month, day, hour, minute)]
            1 <= month <= 12 && 1 <= day <= 31 && hour <= 23 && minute <= 59 && t@ == "新对话 · "@
                + time_stamp(month, day, hour, minute),
{
    let (month, day, hour, minute) = local_time_fields();
    let stamp = format_time_stamp(month, day, hour, minute);
    let t = concat("新对话 · ", stamp.as_str());
    assert(t@ == "新对话 · "@ + time_stamp(month as nat, day as nat, hour as nat, minute as nat));
    t
}

/// The title a new session gets: the requested one when it is not blank,
/// else `default`.
pub open spec fn chosen_title(requested: Option<Seq<char>>, default: Seq<char>) -> Seq<char> {
    match requested {
        Some(t) => if !is_blank(t) {
            t
        } else {
            default
        },
        None => default,
    }
}

pub open spec fn opt_view(o: Option<String>) -> Option<Seq<char>> {
    match o {
        Some(s) => Some(s@),
        None => None,
    }
}

/// Picks the title of a new session (see [`chosen_title`]).
pub fn session_title(requested: Option<String>, default: String) -> (t: String)
    ensures
        t@ == chosen_title(opt_view(requested), default@),
{
    match requested {
        Some(t) => if !blank(t.as_str()) {
            t
        } else {
            default
        },
        None => default,
    }
}

/// Messages fetched newest first, put back in conversation order.
pub fn oldest_first(newest_first: Vec<Message>) -> (r: Vec<Message>)
    ensures
        r@ == newest_first@.reverse(),
{
    let mut rows = newest_first;
    let ghost orig = rows@;
    let mut out: Vec<Message> = Vec::new();
    while rows.len() > 0
        invariant
            orig.len() == rows@.len() + out@.len(),
            rows@ == orig.take(rows@.len() as int),
            out@ == orig.skip(rows@.len() as int).reverse(),
        decreases rows.len(),
    {
        let m = rows.pop().unwrap();
        proof {
            let n = rows@.len() as int;
            assert(orig.take(n + 1).last() == m);
            assert(rows@ =~= orig.take(n));
            assert(orig.skip(n) =~= seq![m] + orig.skip(n + 1));
            assert(orig.skip(n).reverse() =~= orig.skip(n + 1).reverse().push(m));
        }
        out.push(m);
    }
    proof {
        assert(orig.skip(0) =~= orig);
    }
    out
}

} // verus!

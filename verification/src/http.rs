use vstd::prelude::*;

use crate::api::{ServiceStatuses, UnitStatus, DEFAULT_SERVER_PORT, SERVER_ENDPOINT};
use crate::blink::{
    cycle, lemma_alternate_toggles, lemma_pulse_cycle_blinks, period_ms, short_blinks, timed,
    BlinkAction, BlinkCommand, LedAction,
};
use crate::text::chars_of;
use crate::unit::{UnitActiveState, UnitActiveSubState, UnitLoadState};
use vstd::string::StringExecFns;

verus! {

broadcast use vstd::string::group_string_axioms;

/// Why asking the server for the statuses failed. The texts are what the
/// platform's errors write of themselves.
#[derive(Clone, Debug, PartialEq, Eq)]
pub enum QueryError {
    /// Sending the request or reading the answer failed.
    Http(String),
    /// The answer could not be read as statuses.
    Parse,
    /// The HTTP client could not be made.
    ClientInit(String),
}

impl QueryError {
    /// The error as a sentence for the log.
    pub fn message(&self) -> (res: String)
        ensures
            match self {
                QueryError::Http(text) => res@ == "Error while sending http request ("@ + text@
                    + ")"@,
                QueryError::Parse => res@ == "Couldn't parse server response"@,
                QueryError::ClientInit(_) => res@ == "Couldn't create client"@,
            },
    {
        match self {
            QueryError::Http(text) => {
                let mut res = String::from_str("Error while sending http request (");
                res.append(text.as_str());
                res.append(")");
                res
            },
            QueryError::Parse => String::from_str("Couldn't parse server response"),
            QueryError::ClientInit(_) => String::from_str("Couldn't create client"),
        }
    }
}

/// A unit is down when its configuration is not loaded or it is not active.
pub open spec fn is_down(status: UnitStatus) -> bool {
    ||| status.0 != UnitLoadState::Loaded
    ||| !(status.1 == UnitActiveState::Active || status.1 == UnitActiveState::Activating
        || status.1 == UnitActiveState::Reloading || status.1 == UnitActiveState::Refreshing)
}

/// The entries of units that are down, in their order.
pub open spec fn down_entries(entries: Seq<(Seq<char>, UnitStatus)>) -> Seq<(Seq<char>, UnitStatus)>
    decreases entries.len(),
{
    if entries.len() == 0 {
        entries
    } else if is_down(entries.last().1) {
        down_entries(entries.drop_last()).push(entries.last())
    } else {
        down_entries(entries.drop_last())
    }
}

/// What the light shows for the outcome of a query, as the number of
/// services that are down or the error: off when all are up; solid and
/// then one blink per service that is down; solid on an answer that could
/// not be read or a client that could not be made; toggling every second
/// when the request failed.
pub open spec fn command_for(outcome: Result<nat, QueryError>) -> BlinkCommand {
    match outcome {
        Ok(down) => if down == 0 {
            BlinkCommand::Off
        } else {
            BlinkCommand::SolidThenPulseN(down as usize)
        },
        Err(QueryError::Parse) => BlinkCommand::Solid,
        Err(QueryError::ClientInit(_)) => BlinkCommand::Solid,
        Err(QueryError::Http(_)) => BlinkCommand::AlternateEveryMilli(1000),
    }
}

/// The down entries are exactly the entries of units that are down, in the same order.
pub proof fn lemma_down_entries(entries: Seq<(Seq<char>, UnitStatus)>)
    ensures
        down_entries(entries).len() <= entries.len(),
        forall|e: (Seq<char>, UnitStatus)|
            #[trigger] down_entries(entries).contains(e) <==> (entries.contains(e) && is_down(e.1)),
    decreases entries.len(),
{
    if entries.len() > 0 {
        let rest = entries.drop_last();
        lemma_down_entries(rest);
        assert forall|e: (Seq<char>, UnitStatus)|
            #[trigger] entries.contains(e) <==> (rest.contains(e) || e == entries.last()) by {
            if entries.contains(e) {
                let j = choose|j: int| 0 <= j < entries.len() && entries[j] == e;
                if j < entries.len() - 1 {
                    assert(rest[j] == e);
                }
            }
            if rest.contains(e) {
                let j = choose|j: int| 0 <= j < rest.len() && rest[j] == e;
                assert(entries[j] == e);
            }
            if e == entries.last() {
                assert(entries[entries.len() - 1] == e);
            }
        }
        if is_down(entries.last().1) {
            let d = down_entries(rest);
            assert forall|e: (Seq<char>, UnitStatus)|
                #[trigger] d.push(entries.last()).contains(e) <==> (d.contains(e) || e
                    == entries.last()) by {
                if d.push(entries.last()).contains(e) {
                    let j = choose|j: int| 0 <= j < d.len() + 1 && d.push(entries.last())[j] == e;
                    if j < d.len() {
                        assert(d[j] == e);
                    }
                }
                if d.contains(e) {
                    let j = choose|j: int| 0 <= j < d.len() && d[j] == e;
                    assert(d.push(entries.last())[j] == e);
                }
                if e == entries.last() {
                    assert(d.push(entries.last())[d.len() as int] == e);
                }
            }
        }
    }
}

/// A service is down exactly when its LOAD state is not `Loaded` or its
/// ACTIVE state is none of `Active`, `Activating`, `Reloading` and
/// `Refreshing`, whatever its SUB state; the down entries are exactly the
/// entries of such services.
pub proof fn lemma_down_by_load_and_active(entries: Seq<(Seq<char>, UnitStatus)>)
    ensures
        forall|e: (Seq<char>, UnitStatus)|
            #[trigger] down_entries(entries).contains(e) <==> (entries.contains(e) && (
            e.1.0 != UnitLoadState::Loaded || (e.1.1 != UnitActiveState::Active && e.1.1
                != UnitActiveState::Activating && e.1.1 != UnitActiveState::Reloading && e.1.1
                != UnitActiveState::Refreshing))),
        forall|load: UnitLoadState, active: UnitActiveState, sub1: UnitActiveSubState, sub2: UnitActiveSubState|
            #[trigger] is_down((load, active, sub1)) == #[trigger] is_down((load, active, sub2)),
{
    lemma_down_entries(entries);
}

/// The blink codes: with every watched service up the light is switched off
/// and stays off;
/// with `n` of them down it shows solid and then exactly `n` blinks, one
/// period lasting 2.5 s plus half a second per blink; an answer that cannot
/// be read, or a client that cannot be made, shows solid; a failed request
/// toggles the light every second.
pub proof fn lemma_blink_codes(entries: Seq<(Seq<char>, UnitStatus)>)
    requires
        entries.len() <= usize::MAX,
    ensures
        ({
            let n = down_entries(entries).len();
            &&& n == 0 <==> forall|e: (Seq<char>, UnitStatus)|
                #[trigger] entries.contains(e) ==> !is_down(e.1)
            &&& n == 0 ==> command_for(Ok(n)) == BlinkCommand::Off
            &&& n == 0 ==> cycle(command_for(Ok(n))) == seq![
                BlinkAction { led: Some(LedAction::SetLow), wait_ms: None },
            ]
            &&& n > 0 ==> command_for(Ok(n)) == BlinkCommand::SolidThenPulseN(n as usize)
            &&& n > 0 ==> cycle(command_for(Ok(n)))[0] == timed(LedAction::SetHigh, 2000)
            &&& n > 0 ==> short_blinks(cycle(command_for(Ok(n)))) == n
            &&& n > 0 ==> period_ms(cycle(command_for(Ok(n)))) == 2500 + 500 * n
        }),
        command_for(Err(QueryError::Parse)) == BlinkCommand::Solid,
        forall|text: String| #[trigger] command_for(Err(QueryError::ClientInit(text))) == BlinkCommand::Solid,
        forall|text: String|
            #[trigger] command_for(Err(QueryError::Http(text))) == BlinkCommand::AlternateEveryMilli(1000),
        forall|i: int|
            0 <= i < 2 ==> #[trigger] cycle(BlinkCommand::AlternateEveryMilli(1000))[i] == timed(
                LedAction::Toggle,
                1000,
            ),
{
    lemma_down_entries(entries);
    let d = down_entries(entries);
    let n = d.len();
    if n > 0 {
        lemma_pulse_cycle_blinks(n);
        assert(d.contains(d[0]));
    } else {
        assert forall|e: (Seq<char>, UnitStatus)| #[trigger] entries.contains(e) implies !is_down(e.1) by {
            if is_down(e.1) {
                assert(d.contains(e));
            }
        }
    }
    lemma_alternate_toggles(1000);
}

/// The services that are down, in ascending order of name.
pub fn down_services(statuses: &ServiceStatuses) -> (res: Vec<(String, UnitStatus)>)
    ensures
        res@.map_values(|e: (String, UnitStatus)| (e.0@, e.1)) == down_entries(statuses.entries()),
{
    let all = statuses.entries_vec();
    let ghost es = statuses.entries();
    let mut res: Vec<(String, UnitStatus)> = Vec::new();
    let mut i: usize = 0;
    while i < all.len()
        invariant
            i <= all.len(),
            all@.map_values(|e: (String, UnitStatus)| (e.0@, e.1)) == es,
            res@.map_values(|e: (String, UnitStatus)| (e.0@, e.1)) == down_entries(
                es.take(i as int),
            ),
        decreases all.len() - i,
    {
        let (load, active, sub) = all[i].1;
        let ghost before = res@;
        proof {
            assert(es.take(i + 1).drop_last() =~= es.take(i as int));
            assert(es.take(i + 1).last() == es[i as int]);
            assert(es[i as int] == (all@[i as int].0@, all@[i as int].1));
        }
        if !load.is_loaded() || !active.is_active() {
            res.push((all[i].0.clone(), (load, active, sub)));
            proof {
                assert(res@.map_values(|e: (String, UnitStatus)| (e.0@, e.1)) =~= before.map_values(
                    |e: (String, UnitStatus)| (e.0@, e.1),
                ).push(es[i as int]));
            }
        }
        i = i + 1;
    }
    assert(es.take(all.len() as int) =~= es);
    res
}

/// What the light shows for the outcome of a query: the services that are
/// down, or the error.
pub fn blink_command(outcome: &Result<Vec<(String, UnitStatus)>, QueryError>) -> (res: BlinkCommand)
    ensures
        res == command_for(
            match outcome {
                Ok(down) => Ok(down.len() as nat),
                Err(e) => Err(*e),
            },
        ),
{
    match outcome {
        Ok(down) => if down.len() == 0 {
            BlinkCommand::Off
        } else {
            BlinkCommand::SolidThenPulseN(down.len())
        },
        Err(QueryError::Parse) => BlinkCommand::Solid,
        Err(QueryError::ClientInit(_)) => BlinkCommand::Solid,
        Err(QueryError::Http(_)) => BlinkCommand::AlternateEveryMilli(1000),
    }
}

/// Whether `c` is one of the ASCII digits.
pub open spec fn is_digit(c: char) -> bool {
    '0' as int <= c as int <= '9' as int
}

/// The value of an ASCII digit.
pub open spec fn digit_value(c: char) -> nat {
    (c as int - '0' as int) as nat
}

/// The value of `c` when it is an ASCII digit.
fn digit_of(c: char) -> (res: Option<usize>)
    ensures
        match res {
            Some(d) => is_digit(c) && d == digit_value(c),
            None => !is_digit(c),
        },
{
    match c {
        '0' => Some(0),
        '1' => Some(1),
        '2' => Some(2),
        '3' => Some(3),
        '4' => Some(4),
        '5' => Some(5),
        '6' => Some(6),
        '7' => Some(7),
        '8' => Some(8),
        '9' => Some(9),
        _ => None,
    }
}

/// The number that a string of decimal digits writes.
pub open spec fn decimal_value(digits: Seq<char>) -> nat
    decreases digits.len(),
{
    if digits.len() == 0 {
        0
    } else {
        decimal_value(digits.drop_last()) * 10 + digit_value(digits.last())
    }
}

/// The part of `s` after an optional leading `+`.
pub open spec fn unsigned_part(s: Seq<char>) -> Seq<char> {
    if s.len() > 0 && s[0] == '+' {
        s.drop_first()
    } else {
        s
    }
}

/// Whether `s` is a non-empty run of ASCII digits.
pub open spec fn all_digits(s: Seq<char>) -> bool {
    s.len() > 0 && forall|i: int| 0 <= i < s.len() ==> is_digit(#[trigger] s[i])
}

/// The number that `s` writes in decimal, with an optional leading `+`;
/// `None` when `s` is anything else (empty, a lone `+`, a sign `-`, any other character).
pub open spec fn parse_decimal(s: Seq<char>) -> Option<nat> {
    if all_digits(unsigned_part(s)) {
        Some(decimal_value(unsigned_part(s)))
    } else {
        None
    }
}

/// The body length a `content-length` header's text gives: its decimal
/// number when that fits a `usize`; `Parse` otherwise.
pub open spec fn length_from(text: Seq<char>) -> Result<usize, QueryError> {
    match parse_decimal(text) {
        Some(v) => if v <= usize::MAX {
            Ok(v as usize)
        } else {
            Err(QueryError::Parse)
        },
        None => Err(QueryError::Parse),
    }
}

/// A longer run of digits writes at least as large a number.
proof fn lemma_decimal_value_grows(digits: Seq<char>, i: int)
    requires
        0 <= i <= digits.len(),
    ensures
        decimal_value(digits.take(i)) <= decimal_value(digits),
    decreases digits.len() - i,
{
    if i < digits.len() {
        lemma_decimal_value_grows(digits, i + 1);
        assert(digits.take(i + 1).drop_last() =~= digits.take(i));
    } else {
        assert(digits.take(i) =~= digits);
    }
}

/// The length of the answer's body from its `content-length` header: the
/// header's number when it is one that fits a `usize`; `Parse` when the
/// header is missing or not such a number.
pub fn content_length(header: Option<&str>) -> (res: Result<usize, QueryError>)
    ensures
        match header {
            None => res == Err::<usize, QueryError>(QueryError::Parse),
            Some(h) => res == length_from(h@),
        },
{
    let h = match header {
        None => {
            return Err(QueryError::Parse);
        },
        Some(h) => h,
    };
    let cs = chars_of(h);
    let start: usize = if cs.len() > 0 && cs[0] == '+' {
        1
    } else {
        0
    };
    let ghost digits = unsigned_part(h@);
    assert(digits =~= h@.subrange(start as int, h@.len() as int));
    if start == cs.len() {
        return Err(QueryError::Parse);
    }
    let mut i: usize = start;
    while i < cs.len()
        invariant
            header == Some(h),
            digits == unsigned_part(h@),
            cs@ == h@,
            start <= i <= cs.len(),
            digits =~= h@.subrange(start as int, h@.len() as int),
            forall|j: int| 0 <= j < i - start ==> is_digit(#[trigger] digits[j]),
        decreases cs.len() - i,
    {
        if digit_of(cs[i]).is_none() {
            assert(!is_digit(digits[i - start]));
            return Err(QueryError::Parse);
        }
        i = i + 1;
    }
    let mut value: usize = 0;
    let mut i: usize = start;
    while i < cs.len()
        invariant
            header == Some(h),
            digits == unsigned_part(h@),
            cs@ == h@,
            start <= i <= cs.len(),
            digits =~= h@.subrange(start as int, h@.len() as int),
            forall|j: int| 0 <= j < digits.len() ==> is_digit(#[trigger] digits[j]),
            value == decimal_value(digits.take(i - start)),
        decreases cs.len() - i,
    {
        assert(is_digit(digits[i - start]));
        let d = match digit_of(cs[i]) {
            Some(d) => d,
            None => 0,
        };
        proof {
            assert(digits.take(i + 1 - start).drop_last() =~= digits.take(i - start));
            assert(digits.take(i + 1 - start).last() == cs@[i as int]);
            assert(is_digit(digits[i - start]));
        }
        match value.checked_mul(10) {
            None => {
                proof {
                    lemma_decimal_value_grows(digits, i + 1 - start);
                }
                return Err(QueryError::Parse);
            },
            Some(tens) => match tens.checked_add(d) {
                None => {
                    proof {
                        lemma_decimal_value_grows(digits, i + 1 - start);
                    }
                    return Err(QueryError::Parse);
                },
                Some(next) => {
                    value = next;
                },
            },
        }
        i = i + 1;
    }
    assert(digits.take(digits.len() as int) =~= digits);
    Ok(value)
}

/// The decimal digits of `n`, most significant first.
pub open spec fn decimal_chars(n: nat) -> Seq<char>
    decreases n,
{
    if n < 10 {
        seq![digit_char(n)]
    } else {
        decimal_chars(n / 10).push(digit_char(n % 10))
    }
}

/// The ASCII digit for a value below ten.
pub open spec fn digit_char(d: nat) -> char {
    "0123456789"@[d as int]
}

/// The ASCII digit for `d`.
fn digit_str(d: u64) -> (res: &'static str)
    requires
        d < 10,
    ensures
        res@ == seq![digit_char(d as nat)],
{
    proof {
        reveal_strlit("0123456789");
        assert("0123456789"@.len() == 10);
    }
    let res = match d {
        0 => "0",
        1 => "1",
        2 => "2",
        3 => "3",
        4 => "4",
        5 => "5",
        6 => "6",
        7 => "7",
        8 => "8",
        _ => "9",
    };
    proof {
        reveal_strlit("0");
        reveal_strlit("1");
        reveal_strlit("2");
        reveal_strlit("3");
        reveal_strlit("4");
        reveal_strlit("5");
        reveal_strlit("6");
        reveal_strlit("7");
        reveal_strlit("8");
        reveal_strlit("9");
        assert(res@.len() == 1);
        assert(res@ =~= seq![digit_char(d as nat)]);
    }
    res
}

/// Appends the decimal digits of `n` to `s`.
fn push_decimal(s: &mut String, n: u64)
    ensures
        final(s)@ == old(s)@ + decimal_chars(n as nat),
    decreases n,
{
    if n >= 10 {
        push_decimal(s, n / 10);
    }
    s.append(digit_str(n % 10));
    assert(decimal_chars(n as nat) =~= if n < 10 {
        seq![digit_char(n as nat)]
    } else {
        decimal_chars((n / 10) as nat).push(digit_char((n % 10) as nat))
    });
}

/// The address of the status endpoint of the server at `server_ip`.
pub fn server_url(server_ip: &str) -> (res: String)
    ensures
        res@ == "http://"@ + server_ip@ + ":"@ + decimal_chars(DEFAULT_SERVER_PORT as nat)
            + SERVER_ENDPOINT@,
{
    let mut url = String::from_str("http://");
    url.append(server_ip);
    url.append(":");
    push_decimal(&mut url, DEFAULT_SERVER_PORT as u64);
    url.append(SERVER_ENDPOINT);
    url
}

} // verus!

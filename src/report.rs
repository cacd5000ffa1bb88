use vstd::prelude::*;
use crate::models::{AppStatus, Country};

verus! {

/// The text of a time rendered by chrono with a strftime-style `pattern`,
/// or `None` where the time is out of chrono's range.
pub uninterp spec fn utc_formatted(millis: int, pattern: Seq<char>) -> Option<Seq<char>>;

/// Relies on chrono's `DateTime::from_timestamp_millis` and
/// `DateTime::format`: the time `millis` after the epoch, UTC, as `pattern`
/// lays it out, or `None` where chrono cannot represent that time. Only the
/// summary's pattern is admitted, one that chrono's formatter accepts.
#[verifier::external_body]
fn format_utc(millis: i64, pattern: &str) -> (r: Option<String>)
    requires
        pattern@ == TIME_PATTERN@,
    ensures
        r matches Some(s) ==> utc_formatted(millis as int, pattern@) == Some(s@),
        r is None ==> utc_formatted(millis as int, pattern@) is None,
{
    chrono::DateTime::from_timestamp_millis(millis).map(|t| t.format(pattern).to_string())
}

/// The layout of a refresh time in the summary.
pub const TIME_PATTERN: &'static str = "%Y-%m-%d %H:%M:%S UTC";

pub open spec fn digit_char(d: nat) -> char {
    seq!['0', '1', '2', '3', '4', '5', '6', '7', '8', '9'][d as int]
}

/// The decimal digits of `n`, most significant first.
pub open spec fn digits(n: nat) -> Seq<char>
    decreases n,
{
    if n < 10 {
        seq![digit_char(n)]
    } else {
        digits(n / 10).push(digit_char(n % 10))
    }
}

/// The decimal text of `n`, with a leading `-` when it is negative.
pub open spec fn int_text(n: int) -> Seq<char> {
    if n < 0 {
        seq!['-'] + digits((-n) as nat)
    } else {
        digits(n as nat)
    }
}

/// An amount in hundredths as `$` and its decimal value with two places.
pub open spec fn money_text(cents: int) -> Seq<char> {
    let m = if cents < 0 { -cents } else { cents };
    let sign = if cents < 0 { seq!['-'] } else { Seq::<char>::empty() };
    seq!['$'] + sign + digits((m / 100) as nat) + seq!['.', digit_char(((m % 100) / 10) as nat), digit_char((m % 10) as nat)]
}

/// The line of the `rank`-th record (from one) of the summary.
pub open spec fn rank_line(rank: int, c: Country) -> Seq<char> {
    int_text(rank) + ". "@ + c.name@ + " ("@ + match c.estimated_gdp {
        Some(g) => money_text(g as int),
        None => "N/A"@,
    } + ")"@
}

/// The text of the refresh time in the summary.
pub open spec fn refresh_text(status: AppStatus) -> Seq<char> {
    match status.last_refreshed_at {
        Some(t) => match utc_formatted(t.millis as int, TIME_PATTERN@) {
            Some(s) => s,
            None => "Unknown"@,
        },
        None => "Never"@,
    }
}

/// The lines of the summary image, top to bottom.
pub open spec fn summary_text(status: AppStatus, top: Seq<Country>) -> Seq<Seq<char>> {
    seq![
        "Country Data Summary"@,
        "Total Countries: "@ + int_text(status.total_countries as int),
        "Last Refresh: "@ + refresh_text(status),
        "Top 5 by Estimated GDP:"@,
    ] + Seq::new(top.len(), |i: int| rank_line(i + 1, top[i]))
}

fn digit_str(d: u128) -> (r: &'static str)
    requires
        d < 10,
    ensures
        r@ == seq![digit_char(d as nat)],
{
    proof {
        reveal_strlit("0");
        reveal_strlit("1");
        reveal_strlit("2");
        reveal_strlit("3");
        reveal_strlit("4");
        reveal_strlit("5");
        reveal_strlit("6");
        reveal_strlit("7");
        reveal_strlit("8");
        reveal_strlit("9");
    }
    if d == 0 {
        "0"
    } else if d == 1 {
        "1"
    } else if d == 2 {
        "2"
    } else if d == 3 {
        "3"
    } else if d == 4 {
        "4"
    } else if d == 5 {
        "5"
    } else if d == 6 {
        "6"
    } else if d == 7 {
        "7"
    } else if d == 8 {
        "8"
    } else {
        "9"
    }
}

/// The decimal digits of `n`.
pub fn digits_text(n: u128) -> (r: String)
    ensures
        r@ == digits(n as nat),
    decreases n,
{
    if n < 10 {
        String::from_str(digit_str(n))
    } else {
        let mut s = digits_text(n / 10);
        s.append(digit_str(n % 10));
        s
    }
}

/// The decimal text of `n`.
pub fn int_to_text(n: i128) -> (r: String)
    ensures
        r@ == int_text(n as int),
{
    if n < 0 {
        let m: u128 = (0i128 - (n + 1)) as u128 + 1;
        let mut s = String::from_str("-");
        let d = digits_text(m);
        s.append(d.as_str());
        proof {
            reveal_strlit("-");
        }
        s
    } else {
        digits_text(n as u128)
    }
}

/// An amount in hundredths as `$` and two decimal places.
pub fn money_to_text(cents: i128) -> (r: String)
    ensures
        r@ == money_text(cents as int),
{
    let m: u128 = if cents < 0 {
        (0i128 - (cents + 1)) as u128 + 1
    } else {
        cents as u128
    };
    let mut s = String::from_str("$");
    if cents < 0 {
        s.append("-");
    }
    let whole = digits_text(m / 100);
    s.append(whole.as_str());
    s.append(".");
    s.append(digit_str((m % 100) / 10));
    s.append(digit_str(m % 10));
    proof {
        reveal_strlit("$");
        reveal_strlit("-");
        reveal_strlit(".");
        assert(s@ =~= money_text(cents as int));
    }
    s
}

fn rank_line_text(rank: usize, c: &Country) -> (r: String)
    ensures
        r@ == rank_line(rank as int, *c),
{
    let mut s = int_to_text(rank as i128);
    s.append(". ");
    s.append(c.name.as_str());
    s.append(" (");
    match c.estimated_gdp {
        Some(g) => {
            let t = money_to_text(g);
            s.append(t.as_str());
        },
        None => {
            s.append("N/A");
        },
    }
    s.append(")");
    proof {
        reveal_strlit(". ");
        reveal_strlit(" (");
        reveal_strlit("N/A");
        reveal_strlit(")");
        assert(s@ =~= rank_line(rank as int, *c));
    }
    s
}

/// The lines of the summary image: a title, the status, a heading, and one
/// line per top record with its rank, name and estimated GDP.
pub fn summary_lines(status: &AppStatus, top: &Vec<Country>) -> (r: Vec<String>)
    requires
        top@.len() < usize::MAX,
    ensures
        r@.len() == summary_text(*status, top@).len(),
        forall|i: int| 0 <= i < r@.len() ==> (#[trigger] r@[i])@ == summary_text(*status, top@)[i],
{
    let mut lines: Vec<String> = Vec::new();
    lines.push(String::from_str("Country Data Summary"));
    let mut total = String::from_str("Total Countries: ");
    let n = int_to_text(status.total_countries as i128);
    total.append(n.as_str());
    lines.push(total);
    let mut refresh = String::from_str("Last Refresh: ");
    match status.last_refreshed_at {
        Some(t) => match format_utc(t.millis, TIME_PATTERN) {
            Some(text) => refresh.append(text.as_str()),
            None => refresh.append("Unknown"),
        },
        None => refresh.append("Never"),
    }
    lines.push(refresh);
    lines.push(String::from_str("Top 5 by Estimated GDP:"));
    let ghost head = seq![
        "Country Data Summary"@,
        "Total Countries: "@ + int_text(status.total_countries as int),
        "Last Refresh: "@ + refresh_text(*status),
        "Top 5 by Estimated GDP:"@,
    ];
    assert(lines@.len() == 4);
    assert(lines@[0]@ == head[0]);
    assert(lines@[1]@ == head[1]);
    assert(lines@[2]@ == head[2]);
    assert(lines@[3]@ == head[3]);
    let mut i: usize = 0;
    while i < top.len()
        invariant
            i <= top@.len() < usize::MAX,
            lines@.len() == 4 + i,
            forall|j: int| 0 <= j < 4 ==> (#[trigger] lines@[j])@ == head[j],
            forall|j: int| 4 <= j < 4 + i ==> (#[trigger] lines@[j])@ == rank_line(j - 3, top@[j - 4]),
        decreases top@.len() - i,
    {
        let line = rank_line_text(i + 1, &top[i]);
        lines.push(line);
        i = i + 1;
    }
    proof {
        let want = summary_text(*status, top@);
        assert(want.len() == lines@.len());
        assert forall|j: int| 0 <= j < lines@.len() implies (#[trigger] lines@[j])@ == want[j] by {
            if j >= 4 {
                assert(want[j] == rank_line(j - 3, top@[j - 4]));
            }
        }
    }
    lines
}

} // verus!

//! Numbers, amounts and times as the dashboard writes them.

use vstd::prelude::*;
use vstd::string::{StrSliceExecFns, StringExecFns};

verus! {

/// Whether two texts are the same.
pub fn same(a: &str, b: &str) -> (out: bool)
    ensures
        out == (a@ == b@),
{
    a.to_string() == b.to_string()
}

/// The character of a decimal digit.
pub open spec fn digit(d: int) -> char {
    (48 + d) as char
}

/// A number in decimal digits, without leading zeros.
pub open spec fn decimal_digits(n: nat) -> Seq<char>
    decreases n,
{
    if n < 10 {
        seq![digit(n as int)]
    } else {
        decimal_digits(n / 10).push(digit((n % 10) as int))
    }
}

/// The three decimal digits of a number below one thousand.
pub open spec fn three_digits(n: nat) -> Seq<char> {
    seq![digit((n / 100) as int), digit((n / 10 % 10) as int), digit((n % 10) as int)]
}

/// A number in decimal digits, with a comma before every three of them
/// counted from the end.
pub open spec fn grouped_digits(n: nat) -> Seq<char>
    decreases n,
{
    if n < 1000 {
        decimal_digits(n)
    } else {
        grouped_digits(n / 1000).push(',') + three_digits(n % 1000)
    }
}

/// A number in at least two decimal digits.
pub open spec fn padded_digits(n: nat) -> Seq<char> {
    if n < 10 {
        seq!['0', digit(n as int)]
    } else {
        decimal_digits(n)
    }
}

/// Hours, minutes and seconds, each in at least two digits.
pub open spec fn clock_text(hours: nat, minutes: nat, seconds: nat) -> Seq<char> {
    padded_digits(hours).push(':') + padded_digits(minutes).push(':') + padded_digits(seconds)
}

fn digit_text(d: u64) -> (out: &'static str)
    requires
        d < 10,
    ensures
        out@ == seq![digit(d as int)],
{
    proof {
        reveal_strlit("0");
        reveal_strlit("1");
        reveal_strlit("2");
        reveal_strlit("3");
        reveal_strlit("4");
        reveal_strlit("5");
        reveal_strlit("6");
        reveal_strlit("7");
        reveal_strlit("8");
        reveal_strlit("9");
    }
    match d {
        0 => "0",
        1 => "1",
        2 => "2",
        3 => "3",
        4 => "4",
        5 => "5",
        6 => "6",
        7 => "7",
        8 => "8",
        _ => "9",
    }
}

/// Writes a number in decimal.
pub fn decimal(n: u64) -> (out: String)
    ensures
        out@ == decimal_digits(n as nat),
    decreases n,
{
    if n < 10 {
        digit_text(n).to_string()
    } else {
        let out: String = decimal(n / 10).concat(digit_text(n % 10));
        assert(out@ =~= decimal_digits(n as nat));
        out
    }
}

fn three(n: u64) -> (out: String)
    requires
        n < 1000,
    ensures
        out@ == three_digits(n as nat),
{
    let out: String = digit_text(n / 100).to_string().concat(digit_text(n / 10 % 10)).concat(
        digit_text(n % 10),
    );
    assert(out@ =~= three_digits(n as nat));
    out
}

fn grouped(n: u64) -> (out: String)
    ensures
        out@ == grouped_digits(n as nat),
    decreases n,
{
    if n < 1000 {
        decimal(n)
    } else {
        proof {
            reveal_strlit(",");
        }
        let tail: String = three(n % 1000);
        let out: String = grouped(n / 1000).concat(",").concat(tail.as_str());
        assert(out@ =~= grouped_digits(n as nat));
        out
    }
}

/// Writes a count, its digits grouped by threes.
pub fn fmt_int(n: usize) -> (out: String)
    ensures
        out@ == grouped_digits(n as nat),
{
    grouped(n as u64)
}

fn padded(n: u64) -> (out: String)
    ensures
        out@ == padded_digits(n as nat),
{
    if n < 10 {
        proof {
            reveal_strlit("0");
        }
        let out: String = "0".to_string().concat(digit_text(n));
        assert(out@ =~= padded_digits(n as nat));
        out
    } else {
        decimal(n)
    }
}

fn clock(hours: u64, minutes: u64, seconds: u64) -> (out: String)
    ensures
        out@ == clock_text(hours as nat, minutes as nat, seconds as nat),
{
    proof {
        reveal_strlit(":");
    }
    let m: String = padded(minutes);
    let s: String = padded(seconds);
    let out: String = padded(hours).concat(":").concat(m.as_str()).concat(":").concat(s.as_str());
    assert(out@ =~= clock_text(hours as nat, minutes as nat, seconds as nat));
    out
}

/// Writes the time of day, by seconds since the start of a day.
pub fn utc_clock(secs: u64) -> (out: String)
    ensures
        out@ == clock_text(
            (secs / 3600 % 24) as nat,
            (secs / 60 % 60) as nat,
            (secs % 60) as nat,
        ),
{
    clock(secs / 3600 % 24, secs / 60 % 60, secs % 60)
}

/// Writes how long the dashboard has been up.
pub fn uptime_clock(secs: u64) -> (out: String)
    ensures
        out@ == clock_text((secs / 3600) as nat, (secs / 60 % 60) as nat, (secs % 60) as nat),
{
    clock(secs / 3600, secs / 60 % 60, secs % 60)
}

/// The short name of a protocol; a protocol without one keeps its name.
pub open spec fn short_name(name: Seq<char>) -> Seq<char> {
    if name == "marginfi-v2"@ {
        "MFI"@
    } else if name == "kamino"@ {
        "KMNO"@
    } else if name == "drift"@ {
        "DRFT"@
    } else if name == "solend"@ {
        "SLND"@
    } else {
        name
    }
}

/// The short name of a protocol.
pub fn short_proto(name: &str) -> (out: String)
    ensures
        out@ == short_name(name@),
{
    if same(name, "marginfi-v2") {
        "MFI".to_string()
    } else if same(name, "kamino") {
        "KMNO".to_string()
    } else if same(name, "drift") {
        "DRFT".to_string()
    } else if same(name, "solend") {
        "SLND".to_string()
    } else {
        name.to_string()
    }
}

/// Whether a character is a decimal digit.
pub open spec fn is_digit(c: char) -> bool {
    '0' <= c <= '9'
}

/// The number that decimal digits stand for.
pub open spec fn decimal_value(s: Seq<char>) -> nat
    decreases s.len(),
{
    if s.len() == 0 {
        0
    } else {
        10 * decimal_value(s.drop_last()) + (s.last() as nat - 48) as nat
    }
}

/// Whether a text is made of decimal digits.
pub open spec fn is_decimal(s: Seq<char>) -> bool {
    s.len() > 0 && forall|i: int| 0 <= i < s.len() ==> is_digit(#[trigger] s[i])
}

/// The count that decimal digits stand for; zero where the text is anything
/// else or the number is too large.
pub open spec fn count_of(s: Seq<char>) -> nat {
    if is_decimal(s) && decimal_value(s) <= usize::MAX {
        decimal_value(s)
    } else {
        0
    }
}

/// The place of the first point in a text; its end if there is none.
pub open spec fn is_point(s: Seq<char>, k: int) -> bool {
    &&& 0 <= k <= s.len()
    &&& forall|i: int| 0 <= i < k ==> #[trigger] s[i] != '.'
    &&& k < s.len() ==> s[k] == '.'
}

/// An amount in dollars: a sign where it is negative, the dollar sign, the
/// whole dollars grouped by threes, and the digits behind the point, which
/// are zeros where there is no point.
pub open spec fn usd_text(negative: bool, fixed: Seq<char>) -> Seq<char> {
    let k = choose|k: int| is_point(fixed, k);
    let cents = if k < fixed.len() {
        fixed.skip(k + 1)
    } else {
        "00"@
    };
    (if negative {
        "-"@
    } else {
        ""@
    }) + "$"@ + grouped_digits(count_of(fixed.take(k))) + "."@ + cents
}

fn find_point(s: &str) -> (out: usize)
    ensures
        is_point(s@, out as int),
        forall|k: int| is_point(s@, k) ==> k == out,
{
    let len: usize = s.unicode_len();
    let mut i: usize = 0;
    while i < len
        invariant
            i <= len == s@.len(),
            forall|j: int| 0 <= j < i ==> #[trigger] s@[j] != '.',
        decreases len - i,
    {
        if s.get_char(i) == '.' {
            return i;
        }
        i = i + 1;
    }
    i
}

fn digit_value(c: char) -> (out: Option<usize>)
    ensures
        out == if is_digit(c) {
            Some((c as nat - 48) as usize)
        } else {
            None
        },
{
    match c {
        '0' => Some(0),
        '1' => Some(1),
        '2' => Some(2),
        '3' => Some(3),
        '4' => Some(4),
        '5' => Some(5),
        '6' => Some(6),
        '7' => Some(7),
        '8' => Some(8),
        '9' => Some(9),
        _ => None,
    }
}

proof fn lemma_decimal_value_grows(s: Seq<char>, k: int)
    requires
        0 <= k <= s.len(),
    ensures
        decimal_value(s.take(k)) <= decimal_value(s),
    decreases s.len() - k,
{
    if k < s.len() {
        lemma_decimal_value_grows(s, k + 1);
        assert(s.take(k + 1).drop_last() =~= s.take(k));
    } else {
        assert(s.take(k) =~= s);
    }
}

/// Reads the first `len` characters of a text as a count.
fn read_count(s: &str, len: usize) -> (out: usize)
    requires
        len <= s@.len(),
    ensures
        out == count_of(s@.take(len as int)),
{
    let ghost t = s@.take(len as int);
    if len == 0 {
        return 0;
    }
    let mut acc: usize = 0;
    let mut i: usize = 0;
    while i < len
        invariant
            i <= len <= s@.len(),
            t == s@.take(len as int),
            acc == decimal_value(t.take(i as int)),
            forall|j: int| 0 <= j < i ==> is_digit(#[trigger] t[j]),
        decreases len - i,
    {
        let c: char = s.get_char(i);
        assert(c == t[i as int]);
        let ghost next = t.take(i + 1);
        assert(next.drop_last() =~= t.take(i as int));
        match digit_value(c) {
            None => {
                return 0;
            },
            Some(d) => {
                assert(is_digit(t[i as int]));
                proof {
                    lemma_decimal_value_grows(t, i + 1);
                }
                if acc > (usize::MAX - d) / 10 {
                    assert(decimal_value(next) > usize::MAX);
                    return 0;
                }
                acc = acc * 10 + d;
            },
        }
        i = i + 1;
    }
    assert(t.take(len as int) =~= t);
    acc
}

/// Writes an amount in dollars, by its sign and its size in fixed-point
/// decimal with two digits behind the point.
pub fn fmt_usd(negative: bool, fixed: &str) -> (out: String)
    ensures
        out@ == usd_text(negative, fixed@),
{
    let len: usize = fixed.unicode_len();
    let k: usize = find_point(fixed);
    let dollars: String = fmt_int(read_count(fixed, k));
    let sign: &str = if negative {
        "-"
    } else {
        ""
    };
    let cents: &str = if k < len {
        fixed.substring_char(k + 1, len)
    } else {
        "00"
    };
    assert(k < len ==> cents@ =~= fixed@.skip(k + 1));
    sign.to_string().concat("$").concat(dollars.as_str()).concat(".").concat(cents)
}

/// Leaving out the commas of a grouped number gives its plain digits.
pub proof fn law_grouping_keeps_digits(n: nat)
    ensures
        grouped_digits(n).filter(|c: char| c != ',') == decimal_digits(n),
    decreases n,
{
    let plain = |c: char| c != ',';
    if n < 1000 {
        lemma_digits_are_digits(n);
        lemma_no_comma(decimal_digits(n));
    } else {
        law_grouping_keeps_digits(n / 1000);
        let head = grouped_digits(n / 1000).push(',');
        let tail = three_digits(n % 1000);
        lemma_three_are_digits(n % 1000);
        lemma_no_comma(tail);
        Seq::filter_distributes_over_add(head, tail, plain);
        reveal(Seq::filter);
        assert(head.drop_last() =~= grouped_digits(n / 1000));
        lemma_split_thousands(n);
    }
}

proof fn lemma_no_comma(s: Seq<char>)
    requires
        forall|i: int| 0 <= i < s.len() ==> is_digit(#[trigger] s[i]),
    ensures
        s.filter(|c: char| c != ',') == s,
    decreases s.len(),
{
    reveal(Seq::filter);
    if s.len() > 0 {
        lemma_no_comma(s.drop_last());
        assert(s.drop_last().push(s.last()) =~= s);
        assert(is_digit(s[s.len() - 1]));
    }
}

proof fn lemma_three_are_digits(n: nat)
    requires
        n < 1000,
    ensures
        forall|i: int| 0 <= i < 3 ==> is_digit(#[trigger] three_digits(n)[i]),
{
}

proof fn lemma_digits_are_digits(n: nat)
    ensures
        decimal_digits(n).len() > 0,
        forall|i: int|
            0 <= i < decimal_digits(n).len() ==> is_digit(#[trigger] decimal_digits(n)[i]),
    decreases n,
{
    if n >= 10 {
        let head = decimal_digits(n / 10);
        lemma_digits_are_digits(n / 10);
        assert(is_digit(digit((n % 10) as int)));
        assert forall|i: int| 0 <= i < decimal_digits(n).len() implies is_digit(
            #[trigger] decimal_digits(n)[i],
        ) by {
            if i < head.len() {
                assert(decimal_digits(n)[i] == head[i]);
            }
        }
    } else {
        assert(is_digit(digit(n as int)));
    }
}

proof fn lemma_split_thousands(n: nat)
    requires
        n >= 1000,
    ensures
        decimal_digits(n) == decimal_digits(n / 1000) + three_digits(n % 1000),
{
    let a = n / 10;
    let b = a / 10;
    let c = b / 10;
    assert(c == n / 1000);
    assert(n % 1000 / 100 == b % 10);
    assert(n % 1000 / 10 % 10 == a % 10);
    assert(n % 1000 % 10 == n % 10);
    assert(decimal_digits(n) == decimal_digits(a).push(digit((n % 10) as int)));
    assert(decimal_digits(a) == decimal_digits(b).push(digit((a % 10) as int)));
    assert(decimal_digits(b) == decimal_digits(c).push(digit((b % 10) as int)));
    assert(decimal_digits(n) =~= decimal_digits(n / 1000) + three_digits(n % 1000));
}

/// Reading back what was written in decimal gives the number.
pub proof fn law_decimal_reads_back(n: nat)
    ensures
        is_decimal(decimal_digits(n)),
        decimal_value(decimal_digits(n)) == n,
    decreases n,
{
    lemma_digits_are_digits(n);
    if n >= 10 {
        law_decimal_reads_back(n / 10);
        assert(decimal_digits(n).drop_last() =~= decimal_digits(n / 10));
        assert(decimal_digits(n).last() as nat == 48 + n % 10);
    } else {
        assert(decimal_digits(n).last() as nat == 48 + n);
        assert(decimal_digits(n).drop_last() =~= Seq::<char>::empty());
        assert(decimal_value(Seq::<char>::empty()) == 0);
    }
}

/// A grouped number has a comma exactly before every three digits counted from
/// the end.
pub proof fn law_commas_come_every_three_digits(n: nat)
    ensures
        forall|k: int|
            0 <= k < grouped_digits(n).len() ==> (#[trigger] grouped_digits(
                n,
            )[grouped_digits(n).len() - 1 - k] == ',' <==> k % 4 == 3),
        grouped_digits(n).len() > 0,
    decreases n,
{
    let g = grouped_digits(n);
    if n < 1000 {
        lemma_digits_are_digits(n);
        reveal_with_fuel(decimal_digits, 4);
        assert(g.len() <= 3);
        assert forall|k: int| 0 <= k < g.len() implies (#[trigger] g[g.len() - 1 - k] == ',' <==> k
            % 4 == 3) by {
            assert(is_digit(decimal_digits(n)[g.len() - 1 - k]));
        }
    } else {
        let head = grouped_digits(n / 1000);
        let tail = three_digits(n % 1000);
        law_commas_come_every_three_digits(n / 1000);
        lemma_three_are_digits(n % 1000);
        assert(g.len() == head.len() + 4);
        assert forall|k: int| 0 <= k < g.len() implies (#[trigger] g[g.len() - 1 - k] == ',' <==> k
            % 4 == 3) by {
            if k < 3 {
                assert(g[g.len() - 1 - k] == tail[2 - k]);
                assert(is_digit(tail[2 - k]));
            } else if k == 3 {
                assert(g[g.len() - 1 - k] == ',');
            } else {
                assert(g[g.len() - 1 - k] == head[head.len() - 1 - (k - 4)]);
                assert((k - 4) % 4 == k % 4);
            }
        }
    }
}

/// The two-digit parts of a clock read back as the numbers they were written
/// from.
pub proof fn law_padded_reads_back(n: nat)
    ensures
        padded_digits(n).len() >= 2,
        n < 100 ==> padded_digits(n).len() == 2,
        is_decimal(padded_digits(n)),
        decimal_value(padded_digits(n)) == n,
{
    law_decimal_reads_back(n);
    reveal_with_fuel(decimal_digits, 3);
    let s = padded_digits(n);
    if n < 10 {
        reveal_with_fuel(decimal_value, 3);
        assert(is_digit(s[0]) && is_digit(s[1]));
        assert(s.drop_last() =~= seq!['0']);
        assert(seq!['0'].drop_last() =~= Seq::<char>::empty());
        assert(s.last() as nat == 48 + n);
    } else {
        assert(decimal_digits(n).len() >= 2) by {
            lemma_digits_are_digits(n / 10);
        }
    }
}

/// The time of day is hours, minutes and seconds of two digits each, which add
/// up to the seconds since midnight; the time that the dashboard has been up
/// adds up to all of them.
pub proof fn law_clocks_add_up(secs: u64, day: String, up: String)
    requires
        call_ensures(utc_clock, (secs,), day),
        call_ensures(uptime_clock, (secs,), up),
    ensures
        day@.len() == 8 && day@[2] == ':' && day@[5] == ':',
        decimal_value(day@.subrange(0, 2)) * 3600 + decimal_value(day@.subrange(3, 5)) * 60
            + decimal_value(day@.subrange(6, 8)) == secs % 86400,
        ({
            let n = up@.len() as int;
            &&& n >= 8
            &&& up@[n - 6] == ':' && up@[n - 3] == ':'
            &&& decimal_value(up@.subrange(0, n - 6)) * 3600 + decimal_value(
                up@.subrange(n - 5, n - 3),
            ) * 60 + decimal_value(up@.subrange(n - 2, n)) == secs
        }),
{
    let h = (secs / 3600 % 24) as nat;
    let hours = (secs / 3600) as nat;
    let m = (secs / 60 % 60) as nat;
    let s = (secs % 60) as nat;
    law_padded_reads_back(h);
    law_padded_reads_back(hours);
    law_padded_reads_back(m);
    law_padded_reads_back(s);
    assert(day@.subrange(0, 2) =~= padded_digits(h));
    assert(day@.subrange(3, 5) =~= padded_digits(m));
    assert(day@.subrange(6, 8) =~= padded_digits(s));
    let n = up@.len() as int;
    assert(n == padded_digits(hours).len() + 6);
    assert(up@.subrange(0, n - 6) =~= padded_digits(hours));
    assert(up@.subrange(n - 5, n - 3) =~= padded_digits(m));
    assert(up@.subrange(n - 2, n) =~= padded_digits(s));
    let q = secs as int;
    assert(q / 3600 == (q / 60) / 60);
    assert(q == 60 * (q / 60) + q % 60);
    assert(q / 60 == 60 * (q / 60 / 60) + q / 60 % 60);
    assert(q / 86400 == (q / 3600) / 24);
    assert(q % 86400 == q - 86400 * (q / 86400));
    assert((q / 3600) % 24 == q / 3600 - 24 * (q / 3600 / 24));
}

/// An amount of whole dollars and cents is written with its sign, the dollar
/// sign, the dollars grouped by threes, and the cents as they are.
pub proof fn law_amount_shows_dollars_and_cents(negative: bool, dollars: nat, cents: Seq<char>)
    requires
        dollars <= usize::MAX,
    ensures
        usd_text(negative, decimal_digits(dollars).push('.') + cents) == (if negative {
            seq!['-', '$']
        } else {
            seq!['$']
        }) + grouped_digits(dollars) + seq!['.'] + cents,
        usd_text(negative, decimal_digits(dollars)) == (if negative {
            seq!['-', '$']
        } else {
            seq!['$']
        }) + grouped_digits(dollars) + seq!['.', '0', '0'],
{
    reveal_strlit("-");
    reveal_strlit("");
    reveal_strlit("$");
    reveal_strlit(".");
    reveal_strlit("00");
    let digits = decimal_digits(dollars);
    let n = digits.len() as int;
    lemma_digits_are_digits(dollars);
    law_decimal_reads_back(dollars);
    let fixed = digits.push('.') + cents;
    assert forall|i: int| 0 <= i < n implies #[trigger] fixed[i] != '.' by {
        assert(fixed[i] == digits[i]);
        assert(is_digit(digits[i]));
    }
    assert(fixed[n] == '.');
    assert(is_point(fixed, n));
    let k = choose|k: int| is_point(fixed, k);
    if k < n {
        assert(fixed[k] != '.');
    } else if k > n {
        assert(fixed[n] != '.');
    }
    assert(fixed.take(n) =~= digits);
    assert(fixed.skip(n + 1) =~= cents);
    assert(usd_text(negative, fixed) =~= (if negative {
        seq!['-', '$']
    } else {
        seq!['$']
    }) + grouped_digits(dollars) + seq!['.'] + cents);
    assert forall|i: int| 0 <= i < n implies #[trigger] digits[i] != '.' by {
        assert(is_digit(digits[i]));
    }
    assert(is_point(digits, n));
    let j = choose|k: int| is_point(digits, k);
    if j < n {
        assert(digits[j] != '.');
    }
    assert(digits.take(n) =~= digits);
    assert(usd_text(negative, digits) =~= (if negative {
        seq!['-', '$']
    } else {
        seq!['$']
    }) + grouped_digits(dollars) + seq!['.', '0', '0']);
}

/// A number is written without leading zeros: its first digit is zero only for
/// zero itself, which has no other digit.
pub proof fn law_no_leading_zeros(n: nat)
    ensures
        decimal_digits(n)[0] == '0' <==> n == 0,
        n < 10 ==> decimal_digits(n).len() == 1,
    decreases n,
{
    if n >= 10 {
        law_no_leading_zeros(n / 10);
        lemma_digits_are_digits(n / 10);
        assert(decimal_digits(n)[0] == decimal_digits(n / 10)[0]);
    } else {
        assert(digit(n as int) == '0' <==> n == 0);
    }
}

/// The protocols have short names of their own; any other name stays as it is.
pub proof fn law_short_names(name: &str, out: String)
    requires
        call_ensures(short_proto, (name,), out),
    ensures
        name@ == "marginfi-v2"@ ==> out@ == "MFI"@,
        name@ == "kamino"@ ==> out@ == "KMNO"@,
        name@ == "drift"@ ==> out@ == "DRFT"@,
        name@ == "solend"@ ==> out@ == "SLND"@,
        name@ != "marginfi-v2"@ && name@ != "kamino"@ && name@ != "drift"@ && name@ != "solend"@
            ==> out@ == name@,
{
    reveal_strlit("marginfi-v2");
    reveal_strlit("kamino");
    reveal_strlit("drift");
    reveal_strlit("solend");
    assert("marginfi-v2"@.len() == 11 && "kamino"@.len() == 6 && "drift"@.len() == 5
        && "solend"@.len() == 6);
    assert("kamino"@[0] == 'k' && "solend"@[0] == 's');
}

} // verus!

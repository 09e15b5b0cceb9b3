//! The Debts page's decisions: the cycle's month anchor and the month labels
//! on the payoff axis, the status tones, the selection toggle, the grouping
//! of the debt list and the strategy target.

use vstd::prelude::*;
use crate::text::{chars_of, chars_eq, str_eq, string_of, string_from, push_str, is_digit, digit_char, uppercase, to_uppercase};

verus! {

/// The month abbreviation of month index `i` (0 = January).
pub open spec fn month_name(i: int) -> Seq<char> {
    if i == 0 { "JAN"@ }
    else if i == 1 { "FEB"@ }
    else if i == 2 { "MAR"@ }
    else if i == 3 { "APR"@ }
    else if i == 4 { "MAY"@ }
    else if i == 5 { "JUN"@ }
    else if i == 6 { "JUL"@ }
    else if i == 7 { "AUG"@ }
    else if i == 8 { "SEP"@ }
    else if i == 9 { "OCT"@ }
    else if i == 10 { "NOV"@ }
    else { "DEC"@ }
}

/// The month abbreviation of month index `i`.
pub fn month_str(i: usize) -> (r: &'static str)
    requires
        i < 12,
    ensures
        r@ == month_name(i as int),
{
    if i == 0 { "JAN" }
    else if i == 1 { "FEB" }
    else if i == 2 { "MAR" }
    else if i == 3 { "APR" }
    else if i == 4 { "MAY" }
    else if i == 5 { "JUN" }
    else if i == 6 { "JUL" }
    else if i == 7 { "AUG" }
    else if i == 8 { "SEP" }
    else if i == 9 { "OCT" }
    else if i == 10 { "NOV" }
    else { "DEC" }
}

/// The index of the first month at or after `i` abbreviated `t`.
pub open spec fn month_from(t: Seq<char>, i: int) -> Option<int>
    decreases 12 - i,
{
    if i < 0 || i >= 12 {
        None
    } else if month_name(i) == t {
        Some(i)
    } else {
        month_from(t, i + 1)
    }
}

/// An ASCII letter or digit.
pub open spec fn is_alnum(c: char) -> bool {
    ('0' <= c <= '9') || ('A' <= c <= 'Z') || ('a' <= c <= 'z')
}

/// The end of the run of ASCII letters and digits starting at `p`.
pub open spec fn run_end(u: Seq<char>, p: int) -> int
    decreases u.len() - p,
{
    if 0 <= p < u.len() && is_alnum(u[p]) {
        run_end(u, p + 1)
    } else {
        p
    }
}

/// The number written by the decimal digits `s`.
pub open spec fn digits_value(s: Seq<char>) -> int
    decreases s.len(),
{
    if s.len() == 0 {
        0
    } else {
        digits_value(s.drop_last()) * 10 + (s.last() as int - '0' as int)
    }
}

/// Exactly four decimal digits.
pub open spec fn is_year(t: Seq<char>) -> bool {
    t.len() == 4 && forall|k: int| 0 <= k < 4 ==> is_digit(t[k])
}

/// Scan the tokens (maximal runs of ASCII letters and digits) of `u` from
/// position `p`, keeping the first month abbreviation and the first
/// four-digit year seen.
pub open spec fn scan_anchor(u: Seq<char>, p: int, mi: Option<int>, yr: Option<int>) -> (Option<int>, Option<int>)
    decreases u.len() - p,
{
    if p < 0 || p >= u.len() {
        (mi, yr)
    } else if !is_alnum(u[p]) {
        scan_anchor(u, p + 1, mi, yr)
    } else {
        let e = run_end(u, p);
        let tok = u.subrange(p, e);
        let mi2 = if mi is None { month_from(tok, 0) } else { mi };
        let yr2 = if yr is None && is_year(tok) { Some(digits_value(tok)) } else { yr };
        if e <= p || e > u.len() {
            (mi, yr)
        } else {
            scan_anchor(u, e, mi2, yr2)
        }
    }
}

/// The `(month index, year)` anchor read from an upper-cased cycle label:
/// its first month abbreviation and first four-digit year, defaulting to
/// June (5) and 2026.
pub open spec fn anchor_of(u: Seq<char>) -> (int, int) {
    let (mi, yr) = scan_anchor(u, 0, None, None);
    (
        match mi { Some(m) => m, None => 5 },
        match yr { Some(y) => y, None => 2026 },
    )
}

/// Whether `c` is an ASCII letter or digit.
fn ascii_alnum(c: char) -> (r: bool)
    ensures
        r == is_alnum(c),
{
    ('0' <= c && c <= '9') || ('A' <= c && c <= 'Z') || ('a' <= c && c <= 'z')
}

/// The index of the month abbreviated by `u[p..e]`, if any.
fn month_of(u: &Vec<char>, p: usize, e: usize) -> (r: Option<i32>)
    requires
        p <= e <= u.len(),
    ensures
        r matches Some(m) ==> month_from(u@.subrange(p as int, e as int), 0) == Some(m as int),
        r is None ==> month_from(u@.subrange(p as int, e as int), 0) is None,
{
    let ghost t = u@.subrange(p as int, e as int);
    let mut tok: Vec<char> = Vec::new();
    let mut q = p;
    while q < e
        invariant
            p <= q <= e,
            e <= u.len(),
            t == u@.subrange(p as int, e as int),
            tok@ == u@.subrange(p as int, q as int),
        decreases e - q,
    {
        tok.push(u[q]);
        q = q + 1;
        assert(tok@ =~= u@.subrange(p as int, q as int));
    }
    let mut i: usize = 0;
    while i < 12
        invariant
            i <= 12,
            tok@ == t,
            t == u@.subrange(p as int, e as int),
            month_from(t, 0) == month_from(t, i as int),
        decreases 12 - i,
    {
        let m = chars_of(month_str(i));
        if chars_eq(&m, &tok) {
            assert(month_name(i as int) == t);
            assert(month_from(t, i as int) == Some(i as int));
            return Some(i as i32);
        }
        i = i + 1;
    }
    None
}

/// The four-digit year written by `u[p..e]`, if it is one.
fn year_of(u: &Vec<char>, p: usize, e: usize) -> (r: Option<i32>)
    requires
        p <= e <= u.len(),
    ensures
        r matches Some(y) ==> is_year(u@.subrange(p as int, e as int)) && y == digits_value(u@.subrange(p as int, e as int)) && 0 <= y <= 9999,
        r is None ==> !is_year(u@.subrange(p as int, e as int)),
{
    let ghost t = u@.subrange(p as int, e as int);
    if e - p != 4 {
        return None;
    }
    let mut k: usize = 0;
    let mut v: i32 = 0;
    while k < 4
        invariant
            k <= 4,
            e == p + 4,
            e <= u.len(),
            t == u@.subrange(p as int, e as int),
            forall|j: int| 0 <= j < k ==> is_digit(t[j]),
            v == digits_value(t.subrange(0, k as int)),
            0 <= v < 10000,
            k == 0 ==> v == 0,
            k == 1 ==> v < 10,
            k == 2 ==> v < 100,
            k == 3 ==> v < 1000,
        decreases 4 - k,
    {
        let c = u[p + k];
        assert(c == t[k as int]);
        if !('0' <= c && c <= '9') {
            return None;
        }
        let d = (c as u32 - '0' as u32) as i32;
        proof {
            assert(t.subrange(0, k + 1).drop_last() =~= t.subrange(0, k as int));
            assert(t.subrange(0, k + 1).last() == c);
        }
        v = v * 10 + d;
        k = k + 1;
    }
    assert(t.subrange(0, 4) =~= t);
    Some(v)
}

/// The `(month index 0..11, year)` anchor read from an upper-cased label.
pub fn anchor_of_upper(u: &Vec<char>) -> (r: (i32, i32))
    ensures
        r.0 as int == anchor_of(u@).0,
        r.1 as int == anchor_of(u@).1,
        0 <= r.0 < 12,
        0 <= r.1 <= 9999,
{
    let mut mi: Option<i32> = None;
    let mut yr: Option<i32> = None;
    let mut p: usize = 0;
    while p < u.len()
        invariant
            p <= u.len(),
            scan_anchor(u@, 0, None, None) == scan_anchor(
                u@,
                p as int,
                match mi { Some(m) => Some(m as int), None => None },
                match yr { Some(y) => Some(y as int), None => None },
            ),
            mi matches Some(m) ==> 0 <= m < 12,
            yr matches Some(y) ==> 0 <= y <= 9999,
        decreases u.len() - p,
    {
        if !ascii_alnum(u[p]) {
            p = p + 1;
        } else {
            let mut e = p;
            while e < u.len() && ascii_alnum(u[e])
                invariant
                    p <= e <= u.len(),
                    run_end(u@, p as int) == run_end(u@, e as int),
                decreases u.len() - e,
            {
                e = e + 1;
            }
            if mi.is_none() {
                mi = month_of(u, p, e);
                proof {
                    if mi is Some {
                        lemma_month_from_range(u@.subrange(p as int, e as int), 0);
                    }
                }
            }
            if yr.is_none() {
                yr = year_of(u, p, e);
            }
            p = e;
        }
    }
    let m = match mi { Some(m) => m, None => 5 };
    let y = match yr { Some(y) => y, None => 2026 };
    (m, y)
}

/// A found month index is a month.
proof fn lemma_month_from_range(t: Seq<char>, i: int)
    ensures
        month_from(t, i) matches Some(m) ==> 0 <= m < 12,
    decreases 12 - i,
{
    if 0 <= i < 12 && month_name(i) != t {
        lemma_month_from_range(t, i + 1);
    }
}

/// The cycle's `(month index 0..11, year)` anchor, read from its label: the
/// label's first month abbreviation and four-digit year (after upper-casing),
/// else June 2026.
pub fn cycle_anchor(label: &str) -> (r: (i32, i32))
    ensures
        (r.0 as int, r.1 as int) == anchor_of(uppercase(label@)),
        0 <= r.0 < 12,
        0 <= r.1 <= 9999,
{
    let upper = to_uppercase(label);
    let u = chars_of(upper.as_str());
    anchor_of_upper(&u)
}

/// The two-digit text of `n` (`0 <= n < 100`), zero-padded.
pub open spec fn two_digits(n: int) -> Seq<char> {
    seq![digit_char(n / 10), digit_char(n % 10)]
}

/// The `(month index, year)` that lies `offset` months after month `am` of
/// year `ay`.
pub open spec fn shifted(am: int, ay: int, offset: int) -> (int, int) {
    ((am + offset) % 12, ay + (am + offset) / 12)
}

/// The month label `offset` months after the anchor `(am, ay)`: `MON YY`.
pub open spec fn month_label_of(am: int, ay: int, offset: int) -> Seq<char> {
    let (m, y) = shifted(am, ay, offset);
    month_name(m) + seq![' '] + two_digits(y % 100)
}

/// The `(month index 0..11, year)` that lies `offset` months after month
/// `am` of year `ay`.
pub fn month_shift(am: i32, ay: i32, offset: i32) -> (r: (i32, i32))
    requires
        0 <= am < 12,
        0 <= ay <= 9999,
        am + offset <= i32::MAX,
    ensures
        (r.0 as int, r.1 as int) == shifted(am as int, ay as int, offset as int),
        0 <= r.0 < 12,
        12 * r.1 + r.0 == 12 * ay + am + offset,
{
    let t: i64 = am as i64 + offset as i64;
    let (m, q): (i64, i64) = if t >= 0 {
        (t % 12, t / 12)
    } else {
        let n: i64 = -t;
        let q: i64 = (n + 11) / 12;
        (12 * q - n, -q)
    };
    assert(12 * q + m == t && 0 <= m < 12) by (nonlinear_arith)
        requires
            t >= 0 ==> (m == t % 12 && q == t / 12),
            t < 0 ==> (q == -((-t + 11) / 12) && m == 12 * (-q) + t),
    ;
    proof {
        vstd::arithmetic::div_mod::lemma_fundamental_div_mod_converse(t as int, 12, q as int, m as int);
    }
    (m as i32, (ay as i64 + q) as i32)
}

/// `y` modulo 100 (Euclidean: always `0..100`).
fn mod100(y: i32) -> (r: i32)
    ensures
        r as int == (y as int) % 100,
        0 <= r < 100,
{
    let t = y as i64;
    let (m, q): (i64, i64) = if t >= 0 {
        (t % 100, t / 100)
    } else {
        let n: i64 = -t;
        let q: i64 = (n + 99) / 100;
        (100 * q - n, -q)
    };
    assert(100 * q + m == t && 0 <= m < 100) by (nonlinear_arith)
        requires
            t >= 0 ==> (m == t % 100 && q == t / 100),
            t < 0 ==> (q == -((-t + 99) / 100) && m == 100 * (-q) + t),
    ;
    proof {
        vstd::arithmetic::div_mod::lemma_fundamental_div_mod_converse(t as int, 100, q as int, m as int);
    }
    m as i32
}

/// The month label `offset` months after the anchor month `am` of year `ay`
/// (e.g. `"NOV 28"`): the month abbreviation and the year's last two digits.
pub fn month_label_at(am: i32, ay: i32, offset: i32) -> (r: String)
    requires
        0 <= am < 12,
        0 <= ay <= 9999,
        am + offset <= i32::MAX,
    ensures
        r@ == month_label_of(am as int, ay as int, offset as int),
{
    let (m, y) = month_shift(am, ay, offset);
    let yy = mod100(y);
    let mut out: Vec<char> = Vec::new();
    push_str(&mut out, month_str(m as usize));
    out.push(' ');
    out.push(crate::text::char_of_digit((yy / 10) as u8));
    out.push(crate::text::char_of_digit((yy % 10) as u8));
    assert(out@ =~= month_label_of(am as int, ay as int, offset as int));
    string_of(&out)
}

/// The anchor's month is always a month index.
pub proof fn lemma_anchor_month(u: Seq<char>)
    ensures
        0 <= anchor_of(u).0 < 12,
{
    lemma_scan_month(u, 0, None, None);
}

/// The scanned month, when found, is a month index.
proof fn lemma_scan_month(u: Seq<char>, p: int, mi: Option<int>, yr: Option<int>)
    requires
        mi matches Some(m) ==> 0 <= m < 12,
    ensures
        scan_anchor(u, p, mi, yr).0 matches Some(m) ==> 0 <= m < 12,
    decreases u.len() - p,
{
    if p < 0 || p >= u.len() {
    } else if !is_alnum(u[p]) {
        lemma_scan_month(u, p + 1, mi, yr);
    } else {
        let e = run_end(u, p);
        let tok = u.subrange(p, e);
        if mi is None {
            lemma_month_from_range(tok, 0);
        }
        let mi2 = if mi is None { month_from(tok, 0) } else { mi };
        let yr2 = if yr is None && is_year(tok) { Some(digits_value(tok)) } else { yr };
        if !(e <= p || e > u.len()) {
            lemma_scan_month(u, e, mi2, yr2);
        }
    }
}


/// The month label `offset` months ahead of the cycle's anchor (read from
/// the cycle label), e.g. `"NOV 28"`.
pub fn month_label(offset: i32, cycle_label: &str) -> (r: String)
    requires
        anchor_of(uppercase(cycle_label@)).0 + offset <= i32::MAX,
    ensures
        r@ == month_label_of(
            anchor_of(uppercase(cycle_label@)).0,
            anchor_of(uppercase(cycle_label@)).1,
            offset as int,
        ),
{
    let (am, ay) = cycle_anchor(cycle_label);
    month_label_at(am, ay, offset)
}

/// The month label `offset` months ahead of the cycle's anchor, or `None`
/// when the month count overflows (anchor month plus `offset` beyond
/// `i32::MAX`).
pub fn month_label_checked(offset: i32, cycle_label: &str) -> (r: Option<String>)
    ensures
        anchor_of(uppercase(cycle_label@)).0 + offset <= i32::MAX ==> (r matches Some(t) && t@ == month_label_of(
            anchor_of(uppercase(cycle_label@)).0,
            anchor_of(uppercase(cycle_label@)).1,
            offset as int,
        )),
        anchor_of(uppercase(cycle_label@)).0 + offset > i32::MAX ==> r is None,
{
    let (am, ay) = cycle_anchor(cycle_label);
    if offset > i32::MAX - am {
        return None;
    }
    Some(month_label_at(am, ay, offset))
}

/// Law (month labels step by whole years): the label twelve months further
/// on names the same month, one year later.
pub proof fn law_month_label_year_step(am: int, ay: int, offset: int)
    requires
        0 <= am < 12,
    ensures
        shifted(am, ay, offset + 12).0 == shifted(am, ay, offset).0,
        shifted(am, ay, offset + 12).1 == shifted(am, ay, offset).1 + 1,
{
    let t = am + offset;
    vstd::arithmetic::div_mod::lemma_fundamental_div_mod(t, 12);
    vstd::arithmetic::div_mod::lemma_fundamental_div_mod_converse(t + 12, 12, t / 12 + 1, t % 12);
}

/// The label and tone of a debt status key.
pub open spec fn debt_status_of(status: Seq<char>) -> (Seq<char>, Seq<char>) {
    if status == "high"@ {
        ("HIGH INTEREST"@, "coral"@)
    } else if status == "due"@ {
        ("DUE SOON"@, "warn"@)
    } else if status == "watch"@ {
        ("REVIEW"@, "warn"@)
    } else {
        ("ON TRACK"@, "blue"@)
    }
}

/// Status key → `(label, tone)`.
pub fn debt_status(status: &str) -> (r: (&'static str, &'static str))
    ensures
        (r.0@, r.1@) == debt_status_of(status@),
{
    if str_eq(status, "high") {
        ("HIGH INTEREST", "coral")
    } else if str_eq(status, "due") {
        ("DUE SOON", "warn")
    } else if str_eq(status, "watch") {
        ("REVIEW", "warn")
    } else {
        ("ON TRACK", "blue")
    }
}

/// The selection after clicking record `id`: clicking the selected record
/// deselects it, any other selects it. The second value says whether to
/// open the drawer (a new selection on a layout without a dock).
pub open spec fn select_of(sel: Option<Seq<char>>, id: Seq<char>, dockable: bool) -> (Option<Seq<char>>, bool) {
    if sel == Some(id) {
        (None, false)
    } else {
        (Some(id), !dockable)
    }
}

/// Toggle the selection for a click on `id` (see [`select_of`]).
pub fn select_toggle(sel: &Option<String>, id: String, dockable: bool) -> (r: (Option<String>, bool))
    ensures
        (match r.0 { Some(s) => Some(s@), None => None }, r.1)
            == select_of(match sel { Some(s) => Some(s@), None => None }, id@, dockable),
{
    let same = match sel {
        Some(s) => str_eq(s.as_str(), id.as_str()),
        None => false,
    };
    if same {
        (None, false)
    } else {
        (Some(id), !dockable)
    }
}

/// Law (a second click on the same record deselects it): from no selection,
/// two clicks on one record leave nothing selected.
pub proof fn law_select_twice(id: Seq<char>, dockable: bool)
    ensures
        select_of(select_of(None, id, dockable).0, id, dockable).0 == None::<Seq<char>>,
{
}

/// The debt the payoff strategy marks as its target: the avalanche or
/// snowball target (when not empty), nothing for any other strategy.
pub open spec fn strategy_target_of(strategy: Seq<char>, avalanche: Seq<char>, snowball: Seq<char>) -> Option<Seq<char>> {
    if strategy == "avalanche"@ {
        if avalanche.len() > 0 { Some(avalanche) } else { None }
    } else if strategy == "snowball"@ {
        if snowball.len() > 0 { Some(snowball) } else { None }
    } else {
        None
    }
}

/// The id the payoff strategy marks as its target.
pub fn strategy_target(strategy: &str, avalanche: &str, snowball: &str) -> (r: Option<String>)
    ensures
        match r { Some(s) => Some(s@), None => None } == strategy_target_of(strategy@, avalanche@, snowball@),
{
    if str_eq(strategy, "avalanche") {
        if avalanche.unicode_len() > 0 { Some(string_from(avalanche)) } else { None }
    } else if str_eq(strategy, "snowball") {
        if snowball.unicode_len() > 0 { Some(string_from(snowball)) } else { None }
    } else {
        None
    }
}

/// The trajectory the payoff hero asks for: `snowball` or `none` as chosen,
/// `avalanche` for anything else.
pub fn traj_strategy(strategy: &str) -> (r: &'static str)
    ensures
        r@ == (if strategy@ == "snowball"@ {
            "snowball"@
        } else if strategy@ == "none"@ {
            "none"@
        } else {
            "avalanche"@
        }),
{
    if str_eq(strategy, "snowball") {
        "snowball"
    } else if str_eq(strategy, "none") {
        "none"
    } else {
        "avalanche"
    }
}

/// The group a debt is listed under: its own group label, else by kind.
pub open spec fn group_label_of(group_label: Seq<char>, kind: Seq<char>) -> Seq<char> {
    if group_label.len() > 0 {
        group_label
    } else if kind == "LEASE"@ || kind == "LOAN"@ {
        "LEASES & LOANS"@
    } else if kind == "CARD"@ {
        "REVOLVING CREDIT"@
    } else {
        "OBLIGATIONS"@
    }
}

/// The group a debt is listed under.
pub fn debt_group_label(group_label: &str, kind: &str) -> (r: String)
    ensures
        r@ == group_label_of(group_label@, kind@),
{
    if group_label.unicode_len() > 0 {
        string_from(group_label)
    } else if str_eq(kind, "LEASE") || str_eq(kind, "LOAN") {
        string_from("LEASES & LOANS")
    } else if str_eq(kind, "CARD") {
        string_from("REVOLVING CREDIT")
    } else {
        string_from("OBLIGATIONS")
    }
}

/// The payoff horizon text: `N MO`, or a dash from 600 months on.
pub open spec fn months_label_of(months: int) -> Seq<char> {
    if months >= 600 {
        "—"@
    } else {
        crate::text::signed_decimal(months) + " MO"@
    }
}

/// The payoff horizon text of a debt paid off in `months`.
pub fn months_label(months: i32) -> (r: String)
    ensures
        r@ == months_label_of(months as int),
{
    if months >= 600 {
        string_from("—")
    } else {
        let mut v = crate::text::i64_text(months as i64);
        push_str(&mut v, " MO");
        string_of(&v)
    }
}

/// The card legend of a debt: `◎ TARGET` for the strategy's target, else
/// its own status label, else the status key's label.
pub fn debt_legend(is_target: bool, status_label: &str, key_label: &str) -> (r: String)
    ensures
        r@ == (if is_target {
            "◎ TARGET"@
        } else if status_label@.len() == 0 {
            key_label@
        } else {
            status_label@
        }),
{
    if is_target {
        string_from("◎ TARGET")
    } else if status_label.unicode_len() == 0 {
        string_from(key_label)
    } else {
        string_from(status_label)
    }
}

/// A label, or a dash when it is empty.
pub fn or_dash(label: &str) -> (r: String)
    ensures
        r@ == (if label@.len() == 0 { "—"@ } else { label@ }),
{
    if label.unicode_len() == 0 { string_from("—") } else { string_from(label) }
}

/// The payoff month of a debt paid off in `months` (a dash from 600 on).
pub open spec fn payoff_label_of(months: int, cycle_label: Seq<char>) -> Seq<char> {
    if months >= 600 {
        "—"@
    } else {
        month_label_of(
            anchor_of(uppercase(cycle_label)).0,
            anchor_of(uppercase(cycle_label)).1,
            months,
        )
    }
}

/// The inspector's payoff month.
pub fn payoff_label(months: i32, cycle_label: &str) -> (r: String)
    ensures
        r@ == payoff_label_of(months as int, cycle_label@),
{
    proof {
        lemma_anchor_month(uppercase(cycle_label@));
    }
    if months >= 600 { string_from("—") } else { month_label(months, cycle_label) }
}

/// The card's payoff word: `REVOLVING` for a card, else `PAYOFF` and the
/// payoff month.
pub fn payoff_word(kind: &str, months: i32, cycle_label: &str) -> (r: String)
    ensures
        r@ == (if kind@ == "CARD"@ { "REVOLVING"@ } else { "PAYOFF "@ + payoff_label_of(months as int, cycle_label@) }),
{
    if str_eq(kind, "CARD") {
        return string_from("REVOLVING");
    }
    let l = payoff_label(months, cycle_label);
    let mut v: Vec<char> = Vec::new();
    push_str(&mut v, "PAYOFF ");
    push_str(&mut v, l.as_str());
    string_of(&v)
}

/// How much of a loan is paid off: the original amount less the balance.
pub fn paid_so_far(orig: i64, balance: i64) -> (r: i64)
    requires
        i64::MIN <= orig - balance <= i64::MAX,
    ensures
        r == orig - balance,
{
    orig - balance
}

/// An IOU card's direction: `(card class, label class, label)`, owed to you
/// for `in`, owed by you otherwise.
pub fn person_dir(dir: &str) -> (r: (&'static str, &'static str, &'static str))
    ensures
        dir@ == "in"@ ==> r == ("person in", "person-dir in", "← OWED TO YOU"),
        dir@ != "in"@ ==> r == ("person out", "person-dir out", "YOU OWE →"),
{
    if str_eq(dir, "in") {
        ("person in", "person-dir in", "← OWED TO YOU")
    } else {
        ("person out", "person-dir out", "YOU OWE →")
    }
}

/// The IOU ledger's net beam: `(class, sign, verdict)`; a net of zero or
/// more is in your favour.
pub fn net_texts(net: i64) -> (r: (&'static str, &'static str, &'static str))
    ensures
        net >= 0 ==> r == ("beam-net pos", "+", "IN YOUR FAVOUR"),
        net < 0 ==> r == ("beam-net neg", "−", "YOU'RE BEHIND"),
{
    if net >= 0 {
        ("beam-net pos", "+", "IN YOUR FAVOUR")
    } else {
        ("beam-net neg", "−", "YOU'RE BEHIND")
    }
}

/// The IOU ledger's HUD: `⟷ PERSONAL · IOU LEDGER · n OPEN` (a dash until
/// the count has loaded).
pub fn iou_hud(count: Option<u32>) -> (r: String)
    ensures
        r@ == "⟷ PERSONAL · IOU LEDGER · "@ + match count {
            Some(n) => crate::text::decimal(n as nat),
            None => "—"@,
        } + " OPEN"@,
{
    let mut v: Vec<char> = Vec::new();
    push_str(&mut v, "⟷ PERSONAL · IOU LEDGER · ");
    match count {
        Some(n) => {
            let t = crate::text::u64_text(n as u64);
            crate::text::push_chars(&mut v, &t);
        },
        None => push_str(&mut v, "—"),
    }
    push_str(&mut v, " OPEN");
    string_of(&v)
}

/// The debt list orderings.
#[derive(Debug, Clone, Copy, PartialEq, Eq, Structural)]
pub enum DebtSort {
    /// Largest balance first (the default).
    Balance,
    /// Highest interest rate first, then largest balance.
    Apr,
    /// By name.
    Name,
    /// Soonest payoff first.
    Payoff,
}

/// The `(rate key, balance)` pairs the APR order sorts by.
pub open spec fn apr_pairs(apr_keys: Seq<i64>, balances: Seq<i64>) -> Seq<(i64, i64)> {
    Seq::new(apr_keys.len(), |i: int| (apr_keys[i], balances[i]))
}

/// The positions of the debts in display order; ties keep the fetched
/// order. `apr_keys` carries the interest rates as integers that order as
/// the rates do (equal rates, equal keys), e.g. in basis points.
pub fn debt_order(balances: &Vec<i64>, apr_keys: &Vec<i64>, months: &Vec<i64>, names: &Vec<String>, by: DebtSort) -> (r: Vec<usize>)
    requires
        balances.len() == apr_keys.len(),
        balances.len() == months.len(),
        balances.len() == names.len(),
    ensures
        by == DebtSort::Balance ==> crate::sorting::stably_ordered(balances@, true, r@),
        by == DebtSort::Apr ==> crate::sorting::pair_ordered(apr_pairs(apr_keys@, balances@), r@),
        by == DebtSort::Payoff ==> crate::sorting::stably_ordered(months@, false, r@),
        by == DebtSort::Name ==> crate::sorting::text_ordered(crate::grouping::texts(names@), r@),
{
    match by {
        DebtSort::Balance => crate::sorting::stable_order(balances, true),
        DebtSort::Apr => {
            let mut k: Vec<(i64, i64)> = Vec::new();
            let mut i: usize = 0;
            while i < apr_keys.len()
                invariant
                    i <= apr_keys.len(),
                    balances.len() == apr_keys.len(),
                    k.len() == i,
                    forall|j: int| 0 <= j < i ==> #[trigger] k@[j] == (apr_keys@[j], balances@[j]),
                decreases apr_keys.len() - i,
            {
                k.push((apr_keys[i], balances[i]));
                i = i + 1;
            }
            assert(k@ =~= apr_pairs(apr_keys@, balances@));
            crate::sorting::pair_order(&k)
        },
        DebtSort::Payoff => crate::sorting::stable_order(months, false),
        DebtSort::Name => crate::sorting::text_order(names),
    }
}

/// The group heading `NAME · n`.
pub open spec fn heading_of(name: Seq<char>, n: nat) -> Seq<char> {
    name + " · "@ + crate::text::decimal(n)
}

/// The debt groups: with grouping on, one group per group label in order
/// of first appearance, headed `LABEL · n` and holding its rows' positions;
/// with grouping off, one unheaded group of every row.
pub fn debt_groups(labels: &Vec<String>, grouped: bool) -> (r: Vec<(Option<String>, Vec<usize>)>)
    ensures
        !grouped ==> r.len() == 1 && r@[0].0 is None && r@[0].1@.len() == labels.len()
            && forall|i: int| 0 <= i < labels.len() ==> r@[0].1@[i] == i,
        grouped ==> {
            let l = crate::grouping::texts(labels@);
            let keys = crate::grouping::distinct_keys(l);
            &&& r.len() == keys.len()
            &&& forall|g: int| 0 <= g < r.len() ==> {
                let m = crate::grouping::members_of(l, keys[g]);
                &&& (#[trigger] r@[g]).0 matches Some(h) && h@ == heading_of(keys[g], m.len())
                &&& crate::grouping::ints(r@[g].1@) == m
            }
        },
{
    let mut out: Vec<(Option<String>, Vec<usize>)> = Vec::new();
    if !grouped {
        let mut all: Vec<usize> = Vec::new();
        let mut i: usize = 0;
        while i < labels.len()
            invariant
                i <= labels.len(),
                all.len() == i,
                forall|j: int| 0 <= j < i ==> all@[j] == j,
            decreases labels.len() - i,
        {
            all.push(i);
            i = i + 1;
        }
        out.push((None, all));
        return out;
    }
    let (ks, idx) = crate::grouping::first_seen_groups(labels);
    let ghost l = crate::grouping::texts(labels@);
    let mut g: usize = 0;
    while g < ks.len()
        invariant
            g <= ks.len(),
            idx.len() == ks.len(),
            l == crate::grouping::texts(labels@),
            crate::grouping::texts(ks@) == crate::grouping::distinct_keys(l),
            forall|h: int| 0 <= h < idx.len() ==> crate::grouping::ints(#[trigger] idx@[h]@) == crate::grouping::members_of(l, ks@[h]@),
            out.len() == g,
            forall|h: int| 0 <= h < g ==> {
                let m = crate::grouping::members_of(l, ks@[h]@);
                &&& (#[trigger] out@[h]).0 matches Some(t) && t@ == heading_of(ks@[h]@, m.len())
                &&& crate::grouping::ints(out@[h].1@) == m
            },
        decreases ks.len() - g,
    {
        let members = idx[g].clone();
        let ghost mm = crate::grouping::members_of(l, ks@[g as int]@);
        assert(crate::grouping::ints(members@) == mm);
        assert(members@.len() == crate::grouping::ints(members@).len());
        let mut v: Vec<char> = Vec::new();
        push_str(&mut v, ks[g].as_str());
        push_str(&mut v, " · ");
        let n = crate::text::u64_text(members.len() as u64);
        crate::text::push_chars(&mut v, &n);
        let head = string_of(&v);
        out.push((Some(head), members));
        proof {
            assert(crate::grouping::texts(ks@)[g as int] == ks@[g as int]@);
        }
        g = g + 1;
    }
    proof {
        assert forall|h: int| 0 <= h < out.len() implies crate::grouping::distinct_keys(l)[h] == ks@[h]@ by {
            assert(crate::grouping::texts(ks@)[h] == ks@[h]@);
        }
    }
    out
}

/// The monthly KPI's sub-line: `n payments · a auto-detected by GEMMA4`,
/// with dashes until the stats have loaded.
pub open spec fn monthly_sub_of(counts: Option<(u32, u32)>) -> Seq<char> {
    match counts {
        Some((n, a)) => crate::text::decimal(n as nat) + " payments · "@ + crate::text::decimal(a as nat)
            + " auto-detected by GEMMA4"@,
        None => "— payments · — auto-detected by GEMMA4"@,
    }
}

/// The monthly KPI's sub-line.
pub fn monthly_sub(counts: Option<(u32, u32)>) -> (r: String)
    ensures
        r@ == monthly_sub_of(counts),
{
    match counts {
        Some((n, a)) => {
            let mut v = crate::text::u64_text(n as u64);
            push_str(&mut v, " payments · ");
            let t = crate::text::u64_text(a as u64);
            crate::text::push_chars(&mut v, &t);
            push_str(&mut v, " auto-detected by GEMMA4");
            string_of(&v)
        },
        None => string_from("— payments · — auto-detected by GEMMA4"),
    }
}

/// The debt-free KPI's sub-line: `h months at the current pace`.
pub fn debt_free_sub(horizon: Option<i32>) -> (r: String)
    ensures
        r@ == match horizon {
            Some(h) => crate::text::signed_decimal(h as int) + " months at the current pace"@,
            None => "—"@,
        },
{
    match horizon {
        Some(h) => {
            let mut v = crate::text::i64_text(h as i64);
            push_str(&mut v, " months at the current pace");
            string_of(&v)
        },
        None => string_from("—"),
    }
}

/// The strategy's name in the hero: `SNOWBALL`, else `AVALANCHE`.
pub fn strategy_word(strategy: &str) -> (r: &'static str)
    ensures
        r@ == (if strategy@ == "snowball"@ { "SNOWBALL"@ } else { "AVALANCHE"@ }),
{
    if str_eq(strategy, "snowball") { "SNOWBALL" } else { "AVALANCHE" }
}

/// A section count: the stats' count, else the loaded list's length, else a
/// dash.
pub fn section_count(from_stats: Option<u32>, ready: bool, n: usize) -> (r: String)
    ensures
        r@ == match from_stats {
            Some(c) => crate::text::decimal(c as nat),
            None => if ready { crate::text::decimal(n as nat) } else { "—"@ },
        },
{
    match from_stats {
        Some(c) => {
            let t = crate::text::u64_text(c as u64);
            string_of(&t)
        },
        None => if ready {
            let t = crate::text::u64_text(n as u64);
            string_of(&t)
        } else {
            string_from("—")
        },
    }
}

/// The open IOU count: those owed to you plus those you owe.
pub fn iou_count(count_in: u32, count_out: u32) -> (r: u32)
    requires
        count_in + count_out <= u32::MAX,
    ensures
        r == count_in + count_out,
{
    count_in + count_out
}

/// The debt-free label of the payoff hero: the trajectory's own, else the
/// stats', else a dash.
pub fn debt_free_label(traj: &str, stats: Option<&str>) -> (r: String)
    ensures
        r@ == (if traj@.len() > 0 {
            traj@
        } else {
            match stats {
                Some(l) => if l@.len() > 0 { l@ } else { "—"@ },
                None => "—"@,
            }
        }),
{
    if traj.unicode_len() > 0 {
        return string_from(traj);
    }
    match stats {
        Some(l) => if l.unicode_len() > 0 { string_from(l) } else { string_from("—") },
        None => string_from("—"),
    }
}

/// The payoff chart's HUD: `∿ COMBINED BALANCE DECAY · CYCLE → DEBT-FREE`.
pub fn traj_hud(cycle_label: &str, debt_free: &str) -> (r: String)
    ensures
        r@ == "∿ COMBINED BALANCE DECAY · "@ + (if cycle_label@.len() == 0 { "—"@ } else { cycle_label@ })
            + " → "@ + debt_free@,
{
    let mut v: Vec<char> = Vec::new();
    push_str(&mut v, "∿ COMBINED BALANCE DECAY · ");
    if cycle_label.unicode_len() == 0 {
        push_str(&mut v, "—");
    } else {
        push_str(&mut v, cycle_label);
    }
    push_str(&mut v, " → ");
    push_str(&mut v, debt_free);
    string_of(&v)
}

/// The payoff chart's month ticks when the trajectory names none: today,
/// one and two years on when the chart reaches them, and its last month.
pub open spec fn default_ticks(m_max: int) -> Seq<i32> {
    seq![0i32] + (if m_max >= 12 { seq![12i32] } else { Seq::empty() })
        + (if m_max >= 24 { seq![24i32] } else { Seq::empty() }) + seq![m_max as i32]
}

/// The payoff chart's month ticks: the trajectory's own, else
/// [`default_ticks`].
pub fn traj_ticks(given: &Vec<i32>, m_max: i32) -> (r: Vec<i32>)
    ensures
        r@ == (if given.len() > 0 { given@ } else { default_ticks(m_max as int) }),
{
    if given.len() > 0 {
        return given.clone();
    }
    let mut t: Vec<i32> = Vec::new();
    t.push(0);
    if m_max >= 12 {
        t.push(12);
    }
    if m_max >= 24 {
        t.push(24);
    }
    t.push(m_max);
    assert(t@ =~= default_ticks(m_max as int));
    t
}

/// The positions of the trajectory points with month `<= 0` (the owed
/// history) and with month `>= 0` (the projection); today's point is in
/// both.
pub fn trajectory_split(months: &Vec<i32>) -> (r: (Vec<usize>, Vec<usize>))
    ensures
        r.0@.len() <= months.len(),
        forall|a: int| 0 <= a < r.0@.len() ==> #[trigger] r.0@[a] < months.len() && months@[r.0@[a] as int] <= 0,
        forall|a: int, b: int| 0 <= a < b < r.0@.len() ==> r.0@[a] < r.0@[b],
        forall|i: usize| (i as int) < months.len() && months@[i as int] <= 0 ==> #[trigger] r.0@.contains(i),
        forall|a: int| 0 <= a < r.1@.len() ==> #[trigger] r.1@[a] < months.len() && months@[r.1@[a] as int] >= 0,
        forall|a: int, b: int| 0 <= a < b < r.1@.len() ==> r.1@[a] < r.1@[b],
        forall|i: usize| (i as int) < months.len() && months@[i as int] >= 0 ==> #[trigger] r.1@.contains(i),
{
    let mut hist: Vec<usize> = Vec::new();
    let mut proj: Vec<usize> = Vec::new();
    let mut i: usize = 0;
    while i < months.len()
        invariant
            i <= months.len(),
            hist@.len() <= i,
            forall|a: int| 0 <= a < hist@.len() ==> #[trigger] hist@[a] < i && months@[hist@[a] as int] <= 0,
            forall|a: int, b: int| 0 <= a < b < hist@.len() ==> hist@[a] < hist@[b],
            forall|j: usize| (j as int) < i && months@[j as int] <= 0 ==> #[trigger] hist@.contains(j),
            forall|a: int| 0 <= a < proj@.len() ==> #[trigger] proj@[a] < i && months@[proj@[a] as int] >= 0,
            forall|a: int, b: int| 0 <= a < b < proj@.len() ==> proj@[a] < proj@[b],
            forall|j: usize| (j as int) < i && months@[j as int] >= 0 ==> #[trigger] proj@.contains(j),
        decreases months.len() - i,
    {
        let m = months[i];
        if m <= 0 {
            let ghost h0 = hist@;
            hist.push(i);
            proof {
                assert forall|j: usize| (j as int) < i + 1 && months@[j as int] <= 0 implies #[trigger] hist@.contains(j) by {
                    if j == i {
                        assert(hist@[hist@.len() - 1] == i);
                    } else {
                        assert(h0.contains(j));
                        let a = choose|a: int| 0 <= a < h0.len() && h0[a] == j;
                        assert(hist@[a] == j);
                    }
                }
            }
        }
        if m >= 0 {
            let ghost p0 = proj@;
            proj.push(i);
            proof {
                assert forall|j: usize| (j as int) < i + 1 && months@[j as int] >= 0 implies #[trigger] proj@.contains(j) by {
                    if j == i {
                        assert(proj@[proj@.len() - 1] == i);
                    } else {
                        assert(p0.contains(j));
                        let a = choose|a: int| 0 <= a < p0.len() && p0[a] == j;
                        assert(proj@[a] == j);
                    }
                }
            }
        }
        i = i + 1;
    }
    (hist, proj)
}

/// The payoff footer's horizon: `h MO`, or a dash until the stats load.
pub fn horizon_label(horizon: Option<i32>) -> (r: String)
    ensures
        r@ == match horizon {
            Some(h) => crate::text::signed_decimal(h as int) + " MO"@,
            None => "—"@,
        },
{
    match horizon {
        Some(h) => {
            let mut v = crate::text::i64_text(h as i64);
            push_str(&mut v, " MO");
            string_of(&v)
        },
        None => string_from("—"),
    }
}

/// The payoff hero shows its chart only for a loaded trajectory (`Some`
/// of its point count) that has points; otherwise it shows only the
/// awaiting block.
pub fn traj_shows_chart(points: Option<usize>) -> (r: bool)
    ensures
        r == (points matches Some(n) && n > 0),
{
    match points {
        Some(n) => n > 0,
        None => false,
    }
}

/// Law (month names are the calendar's): month index `i` is abbreviated as
/// the `i`-th of JAN, FEB, MAR, APR, MAY, JUN, JUL, AUG, SEP, OCT, NOV, DEC,
/// so the label `k` months after an anchor month names the calendar month
/// `k` months later, with the year it falls in.
pub proof fn law_month_names(i: int, am: int, ay: int, k: int)
    requires
        0 <= i < 12,
        0 <= am < 12,
        am + k >= 0,
    ensures
        month_name(i) == seq!["JAN"@, "FEB"@, "MAR"@, "APR"@, "MAY"@, "JUN"@, "JUL"@, "AUG"@, "SEP"@, "OCT"@, "NOV"@, "DEC"@][i],
        month_label_of(am, ay, k) == seq!["JAN"@, "FEB"@, "MAR"@, "APR"@, "MAY"@, "JUN"@, "JUL"@, "AUG"@, "SEP"@, "OCT"@, "NOV"@, "DEC"@][(am + k) % 12]
            + seq![' '] + two_digits((ay + (am + k) / 12) % 100),
{
    let names = seq!["JAN"@, "FEB"@, "MAR"@, "APR"@, "MAY"@, "JUN"@, "JUL"@, "AUG"@, "SEP"@, "OCT"@, "NOV"@, "DEC"@];
    assert(forall|t: int| 0 <= t < 12 ==> #[trigger] month_name(t) == names[t]) by {
        assert forall|t: int| 0 <= t < 12 implies #[trigger] month_name(t) == names[t] by {
            if t == 0 { assert(names[0] == "JAN"@); }
            else if t == 1 { assert(names[1] == "FEB"@); }
            else if t == 2 { assert(names[2] == "MAR"@); }
            else if t == 3 { assert(names[3] == "APR"@); }
            else if t == 4 { assert(names[4] == "MAY"@); }
            else if t == 5 { assert(names[5] == "JUN"@); }
            else if t == 6 { assert(names[6] == "JUL"@); }
            else if t == 7 { assert(names[7] == "AUG"@); }
            else if t == 8 { assert(names[8] == "SEP"@); }
            else if t == 9 { assert(names[9] == "OCT"@); }
            else if t == 10 { assert(names[10] == "NOV"@); }
            else { assert(names[11] == "DEC"@); }
        }
    }
    let m = (am + k) % 12;
    assert(0 <= m < 12);
    assert(month_name(m) == names[m]);
}

/// Law (two-digit years read back): the two-digit text of any `n` below 100
/// is two decimal digits that read back as `n`.
pub proof fn law_two_digits(n: int)
    requires
        0 <= n < 100,
    ensures
        two_digits(n).len() == 2,
        is_digit(two_digits(n)[0]) && is_digit(two_digits(n)[1]),
        digits_value(two_digits(n)) == n,
{
    let t = two_digits(n);
    assert(t.drop_last() =~= seq![t[0]]);
    let h = seq![t[0]];
    assert(h.drop_last() =~= Seq::<char>::empty());
    assert(h.last() == t[0]);
    assert(digits_value(Seq::<char>::empty()) == 0);
    assert(digits_value(h) == t[0] as int - '0' as int);
    assert(t.last() == t[1]);
    assert(t[0] as int == n / 10 + '0' as int);
    assert(t[1] as int == n % 10 + '0' as int);
}

/// Every month abbreviation is three capital letters, and no earlier month
/// shares it.
proof fn lemma_month_name_shape(i: int)
    requires
        0 <= i < 12,
    ensures
        month_name(i).len() == 3,
        forall|t: int| 0 <= t < 3 ==> 'A' <= #[trigger] month_name(i)[t] <= 'Z',
        forall|j: int| 0 <= j < i ==> #[trigger] month_name(j) != month_name(i),
{
    reveal_strlit("JAN");
    reveal_strlit("FEB");
    reveal_strlit("MAR");
    reveal_strlit("APR");
    reveal_strlit("MAY");
    reveal_strlit("JUN");
    reveal_strlit("JUL");
    reveal_strlit("AUG");
    reveal_strlit("SEP");
    reveal_strlit("OCT");
    reveal_strlit("NOV");
    reveal_strlit("DEC");
    assert forall|j: int| 0 <= j < i implies #[trigger] month_name(j) != month_name(i) by {
        let a = month_name(j);
        let b = month_name(i);
        if a == b {
            assert(a[0] == b[0] && a[1] == b[1] && a[2] == b[2]);
        }
    }
}

/// The month search from `s` finds `i` when month `i` is the first at or
/// after `s` with that name.
proof fn lemma_month_from_finds(t: Seq<char>, s: int, i: int)
    requires
        0 <= s <= i < 12,
        month_name(i) == t,
        forall|j: int| s <= j < i ==> #[trigger] month_name(j) != t,
    ensures
        month_from(t, s) == Some(i),
    decreases i - s,
{
    if s < i {
        lemma_month_from_finds(t, s + 1, i);
    }
}

/// Law (a cycle label names its anchor): the text `MON YYYY`, a month's
/// abbreviation and a four-digit year, anchors the cycle on that month (by
/// its index in the calendar) and that year.
pub proof fn law_anchor_reads_label(i: int, y: Seq<char>)
    requires
        0 <= i < 12,
        is_year(y),
    ensures
        anchor_of(month_name(i) + seq![' '] + y) == (i, digits_value(y)),
{
    let m = month_name(i);
    let u = m + seq![' '] + y;
    lemma_month_name_shape(i);
    assert(u.len() == 8);
    assert(forall|t: int| 0 <= t < 3 ==> #[trigger] u[t] == m[t]);
    assert(u[3] == ' ');
    assert(forall|t: int| 0 <= t < 4 ==> #[trigger] u[4 + t] == y[t]);
    assert(is_alnum(u[0]) && is_alnum(u[1]) && is_alnum(u[2]));
    assert(run_end(u, 3) == 3);
    assert(run_end(u, 2) == 3);
    assert(run_end(u, 1) == 3);
    assert(run_end(u, 0) == 3);
    assert(u.subrange(0, 3) =~= m);
    lemma_month_from_finds(m, 0, i);
    assert(!is_year(m));
    assert(is_digit(y[0]) && is_digit(y[1]) && is_digit(y[2]) && is_digit(y[3]));
    assert(u[4] == y[0] && u[5] == y[1] && u[6] == y[2] && u[7] == y[3]);
    assert(run_end(u, 8) == 8);
    assert(run_end(u, 7) == 8);
    assert(run_end(u, 6) == 8);
    assert(run_end(u, 5) == 8);
    assert(run_end(u, 4) == 8);
    assert(u.subrange(4, 8) =~= y);
    assert(scan_anchor(u, 8, Some(i), Some(digits_value(y))) == (Some(i), Some(digits_value(y))));
    assert(scan_anchor(u, 4, Some(i), None) == (Some(i), Some(digits_value(y))));
    assert(scan_anchor(u, 3, Some(i), None) == (Some(i), Some(digits_value(y))));
    assert(scan_anchor(u, 0, None, None) == (Some(i), Some(digits_value(y))));
}

/// Law (no month, no year: June 2026): a label without any ASCII letter or
/// digit anchors the cycle on June (index 5) of 2026.
pub proof fn law_anchor_default(u: Seq<char>)
    requires
        forall|t: int| 0 <= t < u.len() ==> !is_alnum(#[trigger] u[t]),
    ensures
        anchor_of(u) == (5int, 2026int),
{
    lemma_scan_blank(u, 0);
}

/// Scanning a stretch with no letter or digit finds nothing new.
proof fn lemma_scan_blank(u: Seq<char>, p: int)
    requires
        0 <= p,
        forall|t: int| 0 <= t < u.len() ==> !is_alnum(#[trigger] u[t]),
    ensures
        scan_anchor(u, p, None, None) == (None::<int>, None::<int>),
    decreases u.len() - p,
{
    if p < u.len() {
        assert(!is_alnum(u[p]));
        lemma_scan_blank(u, p + 1);
    }
}

} // verus!

//! The Config page's local preference store and the server-backed CORE rows.
//!
//! The local store holds one value per known preference key (a string or a
//! boolean), always the same 29 keys in ascending key order. It is read
//! from and written to a flat JSON object kept by the browser. Reading never
//! fails: text that is not one complete JSON object reads as nothing, so the
//! defaults stand, and in an object unknown keys and values of the wrong kind
//! are skipped.

use vstd::prelude::*;
use crate::text::{chars_of, chars_eq, str_eq, string_from, string_of, push_str, is_digit};

verus! {

/// The number of local preference keys.
pub const CFG_COUNT: usize = 29;

/// One stored preference value: an option string or a switch.
#[derive(Clone, Debug, PartialEq)]
pub enum CfgVal {
    /// A selector / segmented / text value.
    Str(String),
    /// A switch value.
    Bool(bool),
}

/// The mathematical value of a [`CfgVal`].
pub enum CfgV {
    Str(Seq<char>),
    Bool(bool),
}

impl View for CfgVal {
    type V = CfgV;

    open spec fn view(&self) -> CfgV {
        match self {
            CfgVal::Str(s) => CfgV::Str(s@),
            CfgVal::Bool(b) => CfgV::Bool(*b),
        }
    }
}

/// The text a value shows as: its string, or nothing for a switch.
pub open spec fn cfg_text(v: CfgV) -> Seq<char> {
    match v {
        CfgV::Str(s) => s,
        CfgV::Bool(_) => Seq::empty(),
    }
}

/// Whether two values are of the same kind (both strings or both switches).
pub open spec fn same_kind(a: CfgV, b: CfgV) -> bool {
    (a is Str && b is Str) || (a is Bool && b is Bool)
}

impl CfgVal {
    /// The string of a string value; `""` for a switch.
    pub fn as_str(&self) -> (r: &str)
        ensures
            r@ == cfg_text(self@),
    {
        match self {
            CfgVal::Str(s) => s.as_str(),
            CfgVal::Bool(_) => {
                let e = "";
                proof {
                    reveal_strlit("");
                }
                e
            },
        }
    }

    /// `true` only for a switch that is on.
    pub fn as_bool(&self) -> (r: bool)
        ensures
            r == (self@ == CfgV::Bool(true)),
    {
        match self {
            CfgVal::Bool(b) => *b,
            CfgVal::Str(_) => false,
        }
    }

    /// A copy of the value.
    pub fn copy(&self) -> (r: CfgVal)
        ensures
            r@ == self@,
    {
        match self {
            CfgVal::Str(s) => CfgVal::Str(s.clone()),
            CfgVal::Bool(b) => CfgVal::Bool(*b),
        }
    }

    /// Whether two values are equal (same kind and same content).
    pub fn same(&self, other: &CfgVal) -> (r: bool)
        ensures
            r == (self@ == other@),
    {
        match (self, other) {
            (CfgVal::Str(a), CfgVal::Str(b)) => a.eq(b),
            (CfgVal::Bool(a), CfgVal::Bool(b)) => *a == *b,
            _ => false,
        }
    }
}

/// The name of preference key `i` (keys are in ascending order).
pub open spec fn cfg_key_str(i: int) -> &'static str {
    if i == 0 {
        "aiOpen"
    } else if i == 1 {
        "debtGroup"
    } else if i == 2 {
        "debtHlAuto"
    } else if i == 3 {
        "debtInsp"
    } else if i == 4 {
        "debtProjection"
    } else if i == 5 {
        "debtSort"
    } else if i == 6 {
        "debtStrategy"
    } else if i == 7 {
        "debtView"
    } else if i == 8 {
        "drillMode"
    } else if i == 9 {
        "envLayout"
    } else if i == 10 {
        "iouShow"
    } else if i == 11 {
        "momentumSort"
    } else if i == 12 {
        "showCand"
    } else if i == 13 {
        "showMomentum"
    } else if i == 14 {
        "showProj"
    } else if i == 15 {
        "showRhythm"
    } else if i == 16 {
        "showSparks"
    } else if i == 17 {
        "sigInsp"
    } else if i == 18 {
        "sigSort"
    } else if i == 19 {
        "sort"
    } else if i == 20 {
        "subAmounts"
    } else if i == 21 {
        "subGroup"
    } else if i == 22 {
        "subHlAuto"
    } else if i == 23 {
        "subInsp"
    } else if i == 24 {
        "subSort"
    } else if i == 25 {
        "subView"
    } else if i == 26 {
        "topDateFmt"
    } else if i == 27 {
        "trendMode"
    } else {
        "trendWindow"
    }
}

/// The default of preference key `i`.
pub open spec fn cfg_default_v(i: int) -> CfgV {
    if i == 0 {
        CfgV::Bool(true)
    } else if i == 1 {
        CfgV::Bool(false)
    } else if i == 2 {
        CfgV::Bool(false)
    } else if i == 3 {
        CfgV::Str("dock"@)
    } else if i == 4 {
        CfgV::Bool(true)
    } else if i == 5 {
        CfgV::Str("balance"@)
    } else if i == 6 {
        CfgV::Str("avalanche"@)
    } else if i == 7 {
        CfgV::Str("cards"@)
    } else if i == 8 {
        CfgV::Str("inspector"@)
    } else if i == 9 {
        CfgV::Str("cards"@)
    } else if i == 10 {
        CfgV::Bool(true)
    } else if i == 11 {
        CfgV::Str("momentum"@)
    } else if i == 12 {
        CfgV::Bool(true)
    } else if i == 13 {
        CfgV::Bool(true)
    } else if i == 14 {
        CfgV::Bool(true)
    } else if i == 15 {
        CfgV::Bool(true)
    } else if i == 16 {
        CfgV::Bool(true)
    } else if i == 17 {
        CfgV::Str("dock"@)
    } else if i == 18 {
        CfgV::Str("momentum"@)
    } else if i == 19 {
        CfgV::Str("order"@)
    } else if i == 20 {
        CfgV::Str("monthly"@)
    } else if i == 21 {
        CfgV::Bool(false)
    } else if i == 22 {
        CfgV::Bool(false)
    } else if i == 23 {
        CfgV::Str("dock"@)
    } else if i == 24 {
        CfgV::Str("due"@)
    } else if i == 25 {
        CfgV::Str("cards"@)
    } else if i == 26 {
        CfgV::Str("{label} · DAY {day}/{days}"@)
    } else if i == 27 {
        CfgV::Str("spend"@)
    } else {
        CfgV::Str("12"@)
    }
}

/// The name of preference key `i`.
pub fn cfg_key(i: usize) -> (k: &'static str)
    requires
        i < CFG_COUNT,
    ensures
        k@ == cfg_key_str(i as int)@,
{
    if i == 0 {
        "aiOpen"
    } else if i == 1 {
        "debtGroup"
    } else if i == 2 {
        "debtHlAuto"
    } else if i == 3 {
        "debtInsp"
    } else if i == 4 {
        "debtProjection"
    } else if i == 5 {
        "debtSort"
    } else if i == 6 {
        "debtStrategy"
    } else if i == 7 {
        "debtView"
    } else if i == 8 {
        "drillMode"
    } else if i == 9 {
        "envLayout"
    } else if i == 10 {
        "iouShow"
    } else if i == 11 {
        "momentumSort"
    } else if i == 12 {
        "showCand"
    } else if i == 13 {
        "showMomentum"
    } else if i == 14 {
        "showProj"
    } else if i == 15 {
        "showRhythm"
    } else if i == 16 {
        "showSparks"
    } else if i == 17 {
        "sigInsp"
    } else if i == 18 {
        "sigSort"
    } else if i == 19 {
        "sort"
    } else if i == 20 {
        "subAmounts"
    } else if i == 21 {
        "subGroup"
    } else if i == 22 {
        "subHlAuto"
    } else if i == 23 {
        "subInsp"
    } else if i == 24 {
        "subSort"
    } else if i == 25 {
        "subView"
    } else if i == 26 {
        "topDateFmt"
    } else if i == 27 {
        "trendMode"
    } else {
        "trendWindow"
    }
}

/// The default value of preference key `i`.
pub fn cfg_default(i: usize) -> (v: CfgVal)
    requires
        i < CFG_COUNT,
    ensures
        v@ == cfg_default_v(i as int),
{
    if i == 0 {
        CfgVal::Bool(true)
    } else if i == 1 {
        CfgVal::Bool(false)
    } else if i == 2 {
        CfgVal::Bool(false)
    } else if i == 3 {
        CfgVal::Str(string_from("dock"))
    } else if i == 4 {
        CfgVal::Bool(true)
    } else if i == 5 {
        CfgVal::Str(string_from("balance"))
    } else if i == 6 {
        CfgVal::Str(string_from("avalanche"))
    } else if i == 7 {
        CfgVal::Str(string_from("cards"))
    } else if i == 8 {
        CfgVal::Str(string_from("inspector"))
    } else if i == 9 {
        CfgVal::Str(string_from("cards"))
    } else if i == 10 {
        CfgVal::Bool(true)
    } else if i == 11 {
        CfgVal::Str(string_from("momentum"))
    } else if i == 12 {
        CfgVal::Bool(true)
    } else if i == 13 {
        CfgVal::Bool(true)
    } else if i == 14 {
        CfgVal::Bool(true)
    } else if i == 15 {
        CfgVal::Bool(true)
    } else if i == 16 {
        CfgVal::Bool(true)
    } else if i == 17 {
        CfgVal::Str(string_from("dock"))
    } else if i == 18 {
        CfgVal::Str(string_from("momentum"))
    } else if i == 19 {
        CfgVal::Str(string_from("order"))
    } else if i == 20 {
        CfgVal::Str(string_from("monthly"))
    } else if i == 21 {
        CfgVal::Bool(false)
    } else if i == 22 {
        CfgVal::Bool(false)
    } else if i == 23 {
        CfgVal::Str(string_from("dock"))
    } else if i == 24 {
        CfgVal::Str(string_from("due"))
    } else if i == 25 {
        CfgVal::Str(string_from("cards"))
    } else if i == 26 {
        CfgVal::Str(string_from("{label} · DAY {day}/{days}"))
    } else if i == 27 {
        CfgVal::Str(string_from("spend"))
    } else {
        CfgVal::Str(string_from("12"))
    }
}


/// The index of the first key named `k` at or after `i`, if any.
pub open spec fn key_from(k: Seq<char>, i: int) -> Option<int>
    decreases CFG_COUNT - i,
{
    if i < 0 || i >= CFG_COUNT {
        None
    } else if cfg_key_str(i)@ == k {
        Some(i)
    } else {
        key_from(k, i + 1)
    }
}

/// The index of the key named `k`, if it is a known key.
pub open spec fn key_index_of(k: Seq<char>) -> Option<int> {
    key_from(k, 0)
}

/// The index of the key named `key`, if it is a known key.
pub fn key_index(key: &str) -> (r: Option<usize>)
    ensures
        r matches Some(i) ==> key_index_of(key@) == Some(i as int) && i < CFG_COUNT,
        r is None ==> key_index_of(key@) is None,
{
    let mut i: usize = 0;
    while i < CFG_COUNT
        invariant
            i <= CFG_COUNT,
            key_index_of(key@) == key_from(key@, i as int),
        decreases CFG_COUNT - i,
    {
        if str_eq(key, cfg_key(i)) {
            return Some(i);
        }
        i = i + 1;
    }
    None
}

/// One edit of the local store: key index and new value.
pub open spec fn edit_view(e: (usize, CfgVal)) -> (int, CfgV) {
    (e.0 as int, e.1@)
}

/// The store `s` after applying the edits `e` in order.
pub open spec fn apply_edits(s: Seq<CfgV>, e: Seq<(int, CfgV)>) -> Seq<CfgV>
    decreases e.len(),
{
    if e.len() == 0 {
        s
    } else {
        let last = e.last();
        apply_edits(s, e.drop_last()).update(last.0, last.1)
    }
}

/// The default store.
pub open spec fn default_store() -> Seq<CfgV> {
    Seq::new(CFG_COUNT as nat, |i: int| cfg_default_v(i))
}

/// The local preference store: one value per known key, in key order.
pub struct CfgStore {
    vals: Vec<CfgVal>,
}

impl View for CfgStore {
    type V = Seq<CfgV>;

    closed spec fn view(&self) -> Seq<CfgV> {
        self.vals@.map_values(|v: CfgVal| v@)
    }
}

impl CfgStore {
    /// The store holds exactly one value per known key.
    pub open spec fn wf(&self) -> bool {
        self@.len() == CFG_COUNT
    }

    /// The store with every key at its default.
    pub fn defaults() -> (s: CfgStore)
        ensures
            s.wf(),
            s@ == default_store(),
    {
        let mut vals: Vec<CfgVal> = Vec::new();
        let mut i: usize = 0;
        while i < CFG_COUNT
            invariant
                i <= CFG_COUNT,
                vals.len() == i,
                forall|j: int| 0 <= j < i ==> vals@[j]@ == cfg_default_v(j),
            decreases CFG_COUNT - i,
        {
            vals.push(cfg_default(i));
            i = i + 1;
        }
        let s = CfgStore { vals };
        assert(s@ =~= default_store());
        s
    }

    /// The value of key `i`.
    pub fn value(&self, i: usize) -> (v: &CfgVal)
        requires
            self.wf(),
            i < CFG_COUNT,
        ensures
            v@ == self@[i as int],
    {
        &self.vals[i]
    }

    /// The value of the key named `key`, if it is a known key.
    pub fn get(&self, key: &str) -> (v: Option<&CfgVal>)
        requires
            self.wf(),
        ensures
            key_index_of(key@) matches Some(i) ==> (v matches Some(x) && x@ == self@[i]),
            key_index_of(key@) is None ==> v is None,
    {
        match key_index(key) {
            Some(i) => Some(self.value(i)),
            None => None,
        }
    }

    /// Apply `edits` in order (each sets one key's value).
    pub fn apply(&mut self, edits: &Vec<(usize, CfgVal)>)
        requires
            old(self).wf(),
            forall|j: int| 0 <= j < edits.len() ==> edits@[j].0 < CFG_COUNT,
        ensures
            final(self).wf(),
            final(self)@ == apply_edits(old(self)@, edits@.map_values(|e: (usize, CfgVal)| edit_view(e))),
    {
        let ghost s0 = self@;
        let mut vals: Vec<CfgVal> = Vec::new();
        std::mem::swap(&mut vals, &mut self.vals);
        let ghost ev = edits@.map_values(|e: (usize, CfgVal)| edit_view(e));
        let mut i: usize = 0;
        while i < edits.len()
            invariant
                i <= edits.len(),
                vals.len() == CFG_COUNT,
                ev == edits@.map_values(|e: (usize, CfgVal)| edit_view(e)),
                forall|j: int| 0 <= j < edits.len() ==> edits@[j].0 < CFG_COUNT,
                vals@.map_values(|v: CfgVal| v@) == apply_edits(s0, ev.take(i as int)),
            decreases edits.len() - i,
        {
            let k = edits[i].0;
            let v = edits[i].1.copy();
            let ghost before = vals@;
            vals.set(k, v);
            proof {
                assert(ev.take(i + 1).drop_last() =~= ev.take(i as int));
                assert(ev.take(i + 1).last() == ev[i as int]);
                assert(vals@.map_values(|v: CfgVal| v@) =~= before.map_values(|v: CfgVal| v@).update(k as int, v@));
            }
            i = i + 1;
        }
        proof {
            assert(ev.take(edits.len() as int) =~= ev);
        }
        self.vals = vals;
    }
}


/// How many of the first `n` values of `s` differ from their default.
pub open spec fn count_changed(s: Seq<CfgV>, n: int) -> nat
    decreases n,
{
    if n <= 0 {
        0
    } else {
        count_changed(s, n - 1) + if s[n - 1] != cfg_default_v(n - 1) { 1nat } else { 0nat }
    }
}

/// The inspector placement shown for all surfaces: the Subscriptions value
/// when the Subscriptions, Debts and Analytics placements agree, else `mixed`.
pub open spec fn insp_all_of(s: Seq<CfgV>) -> Seq<char> {
    let sub = cfg_text(s[23]);
    if cfg_text(s[3]) == sub && cfg_text(s[17]) == sub {
        sub
    } else {
        "mixed"@
    }
}

impl CfgStore {
    /// The number of keys whose value differs from its default.
    pub fn changed_count(&self) -> (r: usize)
        requires
            self.wf(),
        ensures
            r == count_changed(self@, CFG_COUNT as int),
    {
        let mut n: usize = 0;
        let mut i: usize = 0;
        while i < CFG_COUNT
            invariant
                self.wf(),
                i <= CFG_COUNT,
                n == count_changed(self@, i as int),
                n <= i,
            decreases CFG_COUNT - i,
        {
            let d = cfg_default(i);
            if !self.value(i).same(&d) {
                n = n + 1;
            }
            i = i + 1;
        }
        n
    }

    /// The unified inspector placement (`subInsp`, `debtInsp` and `sigInsp`
    /// agree) or `mixed`.
    pub fn insp_all(&self) -> (r: String)
        requires
            self.wf(),
        ensures
            r@ == insp_all_of(self@),
    {
        let sub = chars_of(self.value(23).as_str());
        let debt = chars_of(self.value(3).as_str());
        let sig = chars_of(self.value(17).as_str());
        if chars_eq(&debt, &sub) && chars_eq(&sig, &sub) {
            string_of(&sub)
        } else {
            string_from("mixed")
        }
    }
}

/// The lower-case hexadecimal digit of `d` (`d < 16`).
pub open spec fn hex_char(d: int) -> char {
    if d < 10 {
        ((d + '0' as int) as u32) as char
    } else {
        ((d - 10 + 'a' as int) as u32) as char
    }
}

/// The JSON escape of one character.
pub open spec fn escape_char(c: char) -> Seq<char> {
    if c == '"' {
        seq!['\\', '"']
    } else if c == '\\' {
        seq!['\\', '\\']
    } else if c == '\n' {
        seq!['\\', 'n']
    } else if c == '\r' {
        seq!['\\', 'r']
    } else if c == '\t' {
        seq!['\\', 't']
    } else if (c as u32) < 0x20 {
        seq!['\\', 'u', '0', '0', hex_char(((c as u32) / 16) as int), hex_char(((c as u32) % 16) as int)]
    } else {
        seq![c]
    }
}

/// The JSON escape of every character of `s`, in order.
pub open spec fn escape(s: Seq<char>) -> Seq<char>
    decreases s.len(),
{
    if s.len() == 0 {
        Seq::empty()
    } else {
        escape(s.drop_last()) + escape_char(s.last())
    }
}

/// The JSON string literal of `s`.
pub open spec fn json_text(s: Seq<char>) -> Seq<char> {
    seq!['"'] + escape(s) + seq!['"']
}

/// The hexadecimal digit character of `d`.
fn hex_digit(d: u32) -> (c: char)
    requires
        d < 16,
    ensures
        c == hex_char(d as int),
{
    if d < 10 {
        crate::text::char_of_digit(d as u8)
    } else if d == 10 { 'a' }
    else if d == 11 { 'b' }
    else if d == 12 { 'c' }
    else if d == 13 { 'd' }
    else if d == 14 { 'e' }
    else { 'f' }
}

/// Appends the JSON escape of `c`.
fn push_escaped(out: &mut Vec<char>, c: char)
    ensures
        final(out)@ == old(out)@ + escape_char(c),
{
    let ghost o = out@;
    if c == '"' {
        out.push('\\');
        out.push('"');
    } else if c == '\\' {
        out.push('\\');
        out.push('\\');
    } else if c == '\n' {
        out.push('\\');
        out.push('n');
    } else if c == '\r' {
        out.push('\\');
        out.push('r');
    } else if c == '\t' {
        out.push('\\');
        out.push('t');
    } else if (c as u32) < 0x20 {
        out.push('\\');
        out.push('u');
        out.push('0');
        out.push('0');
        out.push(hex_digit((c as u32) / 16));
        out.push(hex_digit((c as u32) % 16));
    } else {
        out.push(c);
    }
    assert(out@ =~= o + escape_char(c));
}

/// Appends the JSON string literal of `s`.
fn push_json(out: &mut Vec<char>, s: &Vec<char>)
    ensures
        final(out)@ == old(out)@ + json_text(s@),
{
    let ghost o = out@;
    out.push('"');
    let mut i: usize = 0;
    while i < s.len()
        invariant
            i <= s.len(),
            out@ == o + seq!['"'] + escape(s@.subrange(0, i as int)),
        decreases s.len() - i,
    {
        push_escaped(out, s[i]);
        proof {
            assert(s@.subrange(0, i + 1).drop_last() =~= s@.subrange(0, i as int));
        }
        i = i + 1;
    }
    out.push('"');
    assert(s@.subrange(0, s.len() as int) =~= s@);
    assert(out@ =~= o + json_text(s@));
}

/// Minimal JSON string-literal escaping: quotes, backslashes and control
/// characters.
pub fn json_str(s: &str) -> (r: String)
    ensures
        r@ == json_text(s@),
{
    let mut out: Vec<char> = Vec::new();
    let v = chars_of(s);
    push_json(&mut out, &v);
    assert(out@ =~= json_text(s@));
    string_of(&out)
}


/// The JSON text of a value: `true`, `false` or a string literal.
pub open spec fn value_text(v: CfgV) -> Seq<char> {
    match v {
        CfgV::Bool(true) => seq!['t', 'r', 'u', 'e'],
        CfgV::Bool(false) => seq!['f', 'a', 'l', 's', 'e'],
        CfgV::Str(s) => json_text(s),
    }
}

/// The `"key":value` member text of one edit.
pub open spec fn member_text(e: (int, CfgV)) -> Seq<char> {
    json_text(cfg_key_str(e.0)@) + seq![':'] + value_text(e.1)
}

/// The members of `e`, separated by commas.
pub open spec fn members_text(e: Seq<(int, CfgV)>) -> Seq<char>
    decreases e.len(),
{
    if e.len() == 0 {
        Seq::empty()
    } else if e.len() == 1 {
        member_text(e[0])
    } else {
        members_text(e.drop_last()) + seq![','] + member_text(e.last())
    }
}

/// The JSON object text of the edits `e`.
pub open spec fn object_text(e: Seq<(int, CfgV)>) -> Seq<char> {
    seq!['{'] + members_text(e) + seq!['}']
}

/// Appends the `"key":value` member text of key `i` with value `v`.
fn push_member(out: &mut Vec<char>, i: usize, v: &CfgVal)
    requires
        i < CFG_COUNT,
    ensures
        final(out)@ == old(out)@ + member_text((i as int, v@)),
{
    let ghost o = out@;
    let k = chars_of(cfg_key(i));
    push_json(out, &k);
    out.push(':');
    match v {
        CfgVal::Bool(true) => {
            out.push('t');
            out.push('r');
            out.push('u');
            out.push('e');
        },
        CfgVal::Bool(false) => {
            out.push('f');
            out.push('a');
            out.push('l');
            out.push('s');
            out.push('e');
        },
        CfgVal::Str(t) => {
            let tc = chars_of(t.as_str());
            push_json(out, &tc);
        },
    }
    assert(out@ =~= o + member_text((i as int, v@)));
}

/// The JSON object that carries `edits` to the browser store (one member per
/// edit, in order).
pub fn edits_json(edits: &Vec<(usize, CfgVal)>) -> (r: String)
    requires
        forall|j: int| 0 <= j < edits.len() ==> edits@[j].0 < CFG_COUNT,
    ensures
        r@ == object_text(edits@.map_values(|e: (usize, CfgVal)| edit_view(e))),
{
    let ghost ev = edits@.map_values(|e: (usize, CfgVal)| edit_view(e));
    let mut out: Vec<char> = Vec::new();
    out.push('{');
    let mut i: usize = 0;
    while i < edits.len()
        invariant
            i <= edits.len(),
            forall|j: int| 0 <= j < edits.len() ==> edits@[j].0 < CFG_COUNT,
            ev == edits@.map_values(|e: (usize, CfgVal)| edit_view(e)),
            out@ == seq!['{'] + members_text(ev.take(i as int)),
        decreases edits.len() - i,
    {
        let ghost before = out@;
        if i > 0 {
            out.push(',');
        }
        push_member(&mut out, edits[i].0, &edits[i].1);
        proof {
            assert(ev.take(i + 1).drop_last() =~= ev.take(i as int));
            assert(ev.take(i + 1).last() == ev[i as int]);
            if i == 0 {
                assert(ev.take(1) =~= seq![ev[0]]);
            }
            assert(out@ =~= seq!['{'] + members_text(ev.take(i + 1)));
        }
        i = i + 1;
    }
    out.push('}');
    assert(ev.take(edits.len() as int) =~= ev);
    assert(out@ =~= object_text(ev));
    string_of(&out)
}

/// Every key with its default value, in key order (the reset broadcast).
pub open spec fn default_entries() -> Seq<(int, CfgV)> {
    Seq::new(CFG_COUNT as nat, |i: int| (i, cfg_default_v(i)))
}

/// The edits that set every key to its default, in key order.
pub fn default_edits() -> (e: Vec<(usize, CfgVal)>)
    ensures
        forall|j: int| 0 <= j < e.len() ==> e@[j].0 < CFG_COUNT,
        e@.map_values(|x: (usize, CfgVal)| edit_view(x)) == default_entries(),
{
    let mut e: Vec<(usize, CfgVal)> = Vec::new();
    let mut i: usize = 0;
    while i < CFG_COUNT
        invariant
            i <= CFG_COUNT,
            e.len() == i,
            forall|j: int| #![trigger e@[j]] 0 <= j < i ==> e@[j].0 == j && e@[j].1@ == cfg_default_v(j),
        decreases CFG_COUNT - i,
    {
        e.push((i, cfg_default(i)));
        i = i + 1;
    }
    assert(e@.map_values(|x: (usize, CfgVal)| edit_view(x)) =~= default_entries());
    assert forall|j: int| 0 <= j < e.len() implies e@[j].0 < CFG_COUNT by {
        assert(e@[j].0 == j);
    }
    e
}

impl CfgStore {
    /// Apply `edits` and return the JSON object to persist and broadcast.
    pub fn set(&mut self, edits: &Vec<(usize, CfgVal)>) -> (r: String)
        requires
            old(self).wf(),
            forall|j: int| 0 <= j < edits.len() ==> edits@[j].0 < CFG_COUNT,
        ensures
            final(self).wf(),
            final(self)@ == apply_edits(old(self)@, edits@.map_values(|e: (usize, CfgVal)| edit_view(e))),
            r@ == object_text(edits@.map_values(|e: (usize, CfgVal)| edit_view(e))),
    {
        self.apply(edits);
        edits_json(edits)
    }

    /// Back to defaults; returns the JSON object of every default to broadcast.
    pub fn reset(&mut self) -> (r: String)
        ensures
            final(self).wf(),
            final(self)@ == default_store(),
            r@ == object_text(default_entries()),
    {
        *self = CfgStore::defaults();
        let e = default_edits();
        edits_json(&e)
    }
}


// ── reading the stored JSON back ──────────────────────────────────────────────

/// Whether `n` occurs in `h` starting at position `p`.
pub open spec fn occurs_at(h: Seq<char>, n: Seq<char>, p: int) -> bool {
    0 <= p && p + n.len() <= h.len() && h.subrange(p, p + n.len()) == n
}

/// The first position at or after `p` where `n` occurs in `h`.
pub open spec fn find_from(h: Seq<char>, n: Seq<char>, p: int) -> Option<int>
    decreases h.len() + 1 - p,
{
    if p < 0 || p + n.len() > h.len() {
        None
    } else if occurs_at(h, n, p) {
        Some(p)
    } else {
        find_from(h, n, p + 1)
    }
}

/// Unicode `White_Space` (what `char::is_whitespace` and `str::trim_start`
/// test).
pub open spec fn is_ws(c: char) -> bool {
    let u = c as u32;
    (0x9 <= u <= 0xd) || u == 0x20 || u == 0x85 || u == 0xa0 || u == 0x1680
        || (0x2000 <= u <= 0x200a) || u == 0x2028 || u == 0x2029 || u == 0x202f
        || u == 0x205f || u == 0x3000
}

/// The first position at or after `p` that is not whitespace (or the end).
pub open spec fn skip_ws_from(h: Seq<char>, p: int) -> int
    decreases h.len() - p,
{
    if 0 <= p < h.len() && is_ws(h[p]) {
        skip_ws_from(h, p + 1)
    } else {
        p
    }
}

/// Whether `h` holds `w` starting at `p`.
pub open spec fn starts_at(h: Seq<char>, w: Seq<char>, p: int) -> bool {
    occurs_at(h, w, p)
}

/// The character an escape `\c` stands for.
pub open spec fn unescaped(c: char) -> char {
    if c == 'n' {
        '\n'
    } else if c == 'r' {
        '\r'
    } else if c == 't' {
        '\t'
    } else {
        c
    }
}

/// The string read from position `p` up to the next unescaped quote (or the
/// end), with `\n`, `\r`, `\t` decoded and any other `\c` read as `c`.
pub open spec fn unescape_from(h: Seq<char>, p: int) -> Seq<char>
    decreases h.len() - p,
{
    if p < 0 || p >= h.len() {
        Seq::empty()
    } else if h[p] == '"' {
        Seq::empty()
    } else if h[p] == '\\' {
        if p + 1 >= h.len() {
            Seq::empty()
        } else {
            seq![unescaped(h[p + 1])] + unescape_from(h, p + 2)
        }
    } else {
        seq![h[p]] + unescape_from(h, p + 1)
    }
}

/// The quoted key `"name"` of key `i`, as looked for in the stored text.
pub open spec fn needle(i: int) -> Seq<char> {
    seq!['"'] + cfg_key_str(i)@ + seq!['"']
}

/// The value the stored text `h` gives key `i`, if it gives one: the first
/// `"key"`, then the next `:`, then past whitespace a `true`/`false` for a
/// switch key or a quoted string for a string key.
pub open spec fn parse_entry(h: Seq<char>, i: int) -> Option<CfgV> {
    match find_from(h, needle(i), 0) {
        None => None,
        Some(k) => match find_from(h, seq![':'], k + needle(i).len()) {
            None => None,
            Some(c) => {
                let v = skip_ws_from(h, c + 1);
                match cfg_default_v(i) {
                    CfgV::Bool(_) => if starts_at(h, seq!['t', 'r', 'u', 'e'], v) {
                        Some(CfgV::Bool(true))
                    } else if starts_at(h, seq!['f', 'a', 'l', 's', 'e'], v) {
                        Some(CfgV::Bool(false))
                    } else {
                        None
                    },
                    CfgV::Str(_) => if 0 <= v < h.len() && h[v] == '"' {
                        Some(CfgV::Str(unescape_from(h, v + 1)))
                    } else {
                        None
                    },
                }
            },
        },
    }
}

/// The entries the stored text `h` gives the first `n` keys, in key order.
pub open spec fn parsed_upto(h: Seq<char>, n: int) -> Seq<(int, CfgV)>
    decreases n,
{
    if n <= 0 {
        Seq::empty()
    } else {
        parsed_upto(h, n - 1) + match parse_entry(h, n - 1) {
            Some(v) => seq![(n - 1, v)],
            None => Seq::empty(),
        }
    }
}

/// The first position at or after `p` where `n` occurs in `h`.
fn find_chars(h: &Vec<char>, n: &Vec<char>, p: usize) -> (r: Option<usize>)
    ensures
        r matches Some(k) ==> find_from(h@, n@, p as int) == Some(k as int),
        r is None ==> find_from(h@, n@, p as int) is None,
{
    if n.len() > h.len() {
        return None;
    }
    let last = h.len() - n.len();
    let mut q: usize = p;
    while q <= last
        invariant
            p <= q,
            n.len() <= h.len(),
            last == h.len() - n.len(),
            find_from(h@, n@, p as int) == find_from(h@, n@, q as int),
        decreases h.len() + 1 - q,
    {
        let mut j: usize = 0;
        let mut same = true;
        while j < n.len()
            invariant
                j <= n.len(),
                q + n.len() <= h.len(),
                same == (forall|t: int| 0 <= t < j ==> h@[q + t] == n@[t]),
            decreases n.len() - j,
        {
            if h[q + j] != n[j] {
                same = false;
            }
            j = j + 1;
        }
        if same {
            assert(h@.subrange(q as int, q + n.len()) =~= n@);
            return Some(q);
        } else {
            proof {
                if h@.subrange(q as int, q + n.len()) == n@ {
                    let t = choose|t: int| 0 <= t < n.len() && h@[q + t] != n@[t];
                    assert(h@.subrange(q as int, q + n.len())[t] == h@[q + t]);
                }
            }
        }
        q = q + 1;
    }
    None
}

/// Whether `c` is Unicode whitespace.
pub fn is_whitespace(c: char) -> (r: bool)
    ensures
        r == is_ws(c),
{
    let u = c as u32;
    (0x9 <= u && u <= 0xd) || u == 0x20 || u == 0x85 || u == 0xa0 || u == 0x1680
        || (0x2000 <= u && u <= 0x200a) || u == 0x2028 || u == 0x2029 || u == 0x202f
        || u == 0x205f || u == 0x3000
}

/// The first position at or after `p` that is not whitespace.
fn skip_ws(h: &Vec<char>, p: usize) -> (r: usize)
    requires
        p <= h.len(),
    ensures
        r == skip_ws_from(h@, p as int),
        p <= r <= h.len(),
{
    let mut q = p;
    while q < h.len() && is_whitespace(h[q])
        invariant
            p <= q <= h.len(),
            skip_ws_from(h@, p as int) == skip_ws_from(h@, q as int),
        decreases h.len() - q,
    {
        q = q + 1;
    }
    q
}

/// Whether `h` holds `w` starting at `p`.
fn starts_with_at(h: &Vec<char>, w: &Vec<char>, p: usize) -> (r: bool)
    requires
        p <= h.len(),
    ensures
        r == starts_at(h@, w@, p as int),
{
    if w.len() > h.len() - p {
        return false;
    }
    let mut j: usize = 0;
    while j < w.len()
        invariant
            j <= w.len(),
            p + w.len() <= h.len(),
            forall|t: int| 0 <= t < j ==> h@[p + t] == w@[t],
        decreases w.len() - j,
    {
        if h[p + j] != w[j] {
            proof {
                assert(h@.subrange(p as int, p + w.len())[j as int] == h@[p + j]);
            }
            return false;
        }
        j = j + 1;
    }
    assert(h@.subrange(p as int, p + w.len()) =~= w@);
    true
}

/// The string read from `p` up to the next unescaped quote (see
/// [`unescape_from`]).
fn unescape(h: &Vec<char>, p: usize) -> (r: Vec<char>)
    requires
        p <= h.len(),
    ensures
        r@ == unescape_from(h@, p as int),
{
    let mut out: Vec<char> = Vec::new();
    let mut q = p;
    loop
        invariant
            q <= h.len(),
            out@ + unescape_from(h@, q as int) == unescape_from(h@, p as int),
        ensures
            out@ == unescape_from(h@, p as int),
        decreases h.len() + 2 - q,
    {
        if q >= h.len() {
            assert(out@ =~= out@ + unescape_from(h@, q as int));
            break;
        }
        let c = h[q];
        if c == '"' {
            assert(out@ =~= out@ + unescape_from(h@, q as int));
            break;
        }
        if c == '\\' {
            if q + 1 >= h.len() {
                assert(out@ =~= out@ + unescape_from(h@, q as int));
                break;
            }
            let e = h[q + 1];
            let d = if e == 'n' {
                '\n'
            } else if e == 'r' {
                '\r'
            } else if e == 't' {
                '\t'
            } else {
                e
            };
            let ghost before = out@;
            out.push(d);
            assert(out@ =~= before + seq![d]);
            assert(before + unescape_from(h@, q as int) =~= out@ + unescape_from(h@, q + 2));
            q = q + 2;
        } else {
            let ghost before = out@;
            out.push(c);
            assert(before + unescape_from(h@, q as int) =~= out@ + unescape_from(h@, q + 1));
            q = q + 1;
        }
    }
    out
}

/// The value the stored text `h` gives key `i` (see [`parse_entry`]).
fn read_entry(h: &Vec<char>, i: usize) -> (r: Option<CfgVal>)
    requires
        i < CFG_COUNT,
    ensures
        r matches Some(v) ==> parse_entry(h@, i as int) == Some(v@),
        r is None ==> parse_entry(h@, i as int) is None,
{
    let mut n: Vec<char> = Vec::new();
    n.push('"');
    push_str(&mut n, cfg_key(i));
    n.push('"');
    assert(n@ =~= needle(i as int));
    let k = match find_chars(h, &n, 0) {
        Some(k) => k,
        None => return None,
    };
    let mut colon: Vec<char> = Vec::new();
    colon.push(':');
    assert(colon@ =~= seq![':']);
    proof {
        lemma_find_bound(h@, n@, 0);
        assert(k + n@.len() <= h@.len());
        assert(h@.len() == h.len());
    }
    let c = match find_chars(h, &colon, k + n.len()) {
        Some(c) => c,
        None => return None,
    };
    proof {
        lemma_find_bound(h@, colon@, k + n.len());
        assert(c + 1 <= h@.len());
        assert(h@.len() == h.len());
    }
    let v = skip_ws(h, c + 1);
    match cfg_default(i) {
        CfgVal::Bool(_) => {
            let mut t: Vec<char> = Vec::new();
            t.push('t');
            t.push('r');
            t.push('u');
            t.push('e');
            assert(t@ =~= seq!['t', 'r', 'u', 'e']);
            let mut f: Vec<char> = Vec::new();
            f.push('f');
            f.push('a');
            f.push('l');
            f.push('s');
            f.push('e');
            assert(f@ =~= seq!['f', 'a', 'l', 's', 'e']);
            if starts_with_at(h, &t, v) {
                Some(CfgVal::Bool(true))
            } else if starts_with_at(h, &f, v) {
                Some(CfgVal::Bool(false))
            } else {
                None
            }
        },
        CfgVal::Str(_) => {
            if v < h.len() && h[v] == '"' {
                let s = unescape(h, v + 1);
                Some(CfgVal::Str(string_of(&s)))
            } else {
                None
            }
        },
    }
}

/// A found occurrence lies inside the text.
proof fn lemma_find_bound(h: Seq<char>, n: Seq<char>, p: int)
    ensures
        find_from(h, n, p) matches Some(k) ==> p <= k && k + n.len() <= h.len(),
    decreases h.len() + 1 - p,
{
    if p < 0 || p + n.len() > h.len() {
    } else if occurs_at(h, n, p) {
    } else {
        lemma_find_bound(h, n, p + 1);
    }
}


// ── the stored text must be one JSON object ───────────────────────────────────

/// JSON's insignificant whitespace: space, tab, newline, carriage return.
pub open spec fn json_ws(c: char) -> bool {
    c == ' ' || c == '\t' || c == '\n' || c == '\r'
}

/// The first position at or after `p` that is not JSON whitespace.
pub open spec fn skip_json_ws(h: Seq<char>, p: int) -> int
    decreases h.len() - p,
{
    if 0 <= p < h.len() && json_ws(h[p]) {
        skip_json_ws(h, p + 1)
    } else {
        p
    }
}

/// A hexadecimal digit.
pub open spec fn is_hex(c: char) -> bool {
    ('0' <= c <= '9') || ('a' <= c <= 'f') || ('A' <= c <= 'F')
}

/// A character that may follow `\` in a JSON string (other than `u`).
pub open spec fn short_escape(c: char) -> bool {
    c == '"' || c == '\\' || c == '/' || c == 'b' || c == 'f' || c == 'n' || c == 'r' || c == 't'
}

/// One past the closing quote of the JSON string whose body starts at `p`:
/// plain characters from U+0020 on, `\` and a short escape, or `\u` and
/// four hexadecimal digits; `None` when the string is malformed or unclosed.
pub open spec fn string_end(h: Seq<char>, p: int) -> Option<int>
    decreases h.len() - p,
{
    if p < 0 || p >= h.len() {
        None
    } else if h[p] == '"' {
        Some(p + 1)
    } else if h[p] == '\\' {
        if p + 1 < h.len() && short_escape(h[p + 1]) {
            string_end(h, p + 2)
        } else if p + 5 < h.len() && h[p + 1] == 'u' && is_hex(h[p + 2]) && is_hex(h[p + 3])
            && is_hex(h[p + 4]) && is_hex(h[p + 5]) {
            string_end(h, p + 6)
        } else {
            None
        }
    } else if (h[p] as u32) < 0x20 {
        None
    } else {
        string_end(h, p + 1)
    }
}

/// The first position at or after `p` that is not a decimal digit.
pub open spec fn digits_end(h: Seq<char>, p: int) -> int
    decreases h.len() - p,
{
    if 0 <= p < h.len() && is_digit(h[p]) {
        digits_end(h, p + 1)
    } else {
        p
    }
}

/// One past the JSON number starting at `p`: an optional `-`, `0` or a
/// digit run not starting with `0`, an optional fraction and an optional
/// exponent.
pub open spec fn number_end(h: Seq<char>, p: int) -> Option<int> {
    let a = if 0 <= p < h.len() && h[p] == '-' { p + 1 } else { p };
    if !(0 <= a < h.len() && is_digit(h[a])) {
        None
    } else {
        let b = if h[a] == '0' { a + 1 } else { digits_end(h, a) };
        let c = if b < h.len() && h[b] == '.' {
            if b + 1 < h.len() && is_digit(h[b + 1]) { Some(digits_end(h, b + 1)) } else { None }
        } else {
            Some(b)
        };
        match c {
            None => None,
            Some(c) => if c < h.len() && (h[c] == 'e' || h[c] == 'E') {
                let d = if c + 1 < h.len() && (h[c + 1] == '+' || h[c + 1] == '-') { c + 2 } else { c + 1 };
                if d < h.len() && is_digit(h[d]) { Some(digits_end(h, d)) } else { None }
            } else {
                Some(c)
            },
        }
    }
}

/// One past the scalar JSON value starting at `p`: a string, `true`,
/// `false`, `null` or a number.
pub open spec fn value_end(h: Seq<char>, p: int) -> Option<int> {
    if 0 <= p < h.len() && h[p] == '"' {
        string_end(h, p + 1)
    } else if starts_at(h, seq!['t', 'r', 'u', 'e'], p) {
        Some(p + 4)
    } else if starts_at(h, seq!['f', 'a', 'l', 's', 'e'], p) {
        Some(p + 5)
    } else if starts_at(h, seq!['n', 'u', 'l', 'l'], p) {
        Some(p + 4)
    } else {
        number_end(h, p)
    }
}

/// One past the closing brace of an object whose members start at `p`:
/// `"key" : value`, then `}` or `,` and the next member (whitespace
/// allowed around each token). Each member takes at least one character,
/// so the next member always starts further on.
pub open spec fn members_end(h: Seq<char>, p: int) -> Option<int>
    decreases h.len() - p,
{
    if !(0 <= p < h.len() && h[p] == '"') {
        None
    } else {
        match string_end(h, p + 1) {
            None => None,
            Some(k) => {
                let c = skip_json_ws(h, k);
                if !(0 <= c < h.len() && h[c] == ':') {
                    None
                } else {
                    match value_end(h, skip_json_ws(h, c + 1)) {
                        None => None,
                        Some(e) => {
                            let n = skip_json_ws(h, e);
                            if 0 <= n < h.len() && h[n] == '}' {
                                Some(n + 1)
                            } else if 0 <= n < h.len() && h[n] == ',' {
                                let q = skip_json_ws(h, n + 1);
                                if p < q <= h.len() { members_end(h, q) } else { None }
                            } else {
                                None
                            }
                        },
                    }
                }
            },
        }
    }
}

/// `h` is one complete JSON object of scalar values (what the store holds),
/// with nothing but whitespace around it.
pub open spec fn json_object(h: Seq<char>) -> bool {
    let a = skip_json_ws(h, 0);
    if 0 <= a < h.len() && h[a] == '{' {
        let b = skip_json_ws(h, a + 1);
        let end = if 0 <= b < h.len() && h[b] == '}' { Some(b + 1) } else { members_end(h, b) };
        match end {
            Some(e) => skip_json_ws(h, e) == h.len(),
            None => false,
        }
    } else {
        false
    }
}

/// The entries read from the stored text: those of [`parsed_upto`] when
/// the text is one complete JSON object, none otherwise (the defaults
/// stand).
pub open spec fn stored_entries(h: Seq<char>) -> Seq<(int, CfgV)> {
    if json_object(h) { parsed_upto(h, CFG_COUNT as int) } else { Seq::empty() }
}

fn skip_jws(h: &Vec<char>, p: usize) -> (r: usize)
    requires
        p <= h.len(),
    ensures
        r == skip_json_ws(h@, p as int),
        p <= r <= h.len(),
{
    let mut q = p;
    while q < h.len() && (h[q] == ' ' || h[q] == '\t' || h[q] == '\n' || h[q] == '\r')
        invariant
            p <= q <= h.len(),
            skip_json_ws(h@, p as int) == skip_json_ws(h@, q as int),
        decreases h.len() - q,
    {
        q = q + 1;
    }
    q
}

fn hex(c: char) -> (r: bool)
    ensures
        r == is_hex(c),
{
    ('0' <= c && c <= '9') || ('a' <= c && c <= 'f') || ('A' <= c && c <= 'F')
}

fn str_end(h: &Vec<char>, p: usize) -> (r: Option<usize>)
    requires
        p <= h.len(),
    ensures
        r matches Some(e) ==> string_end(h@, p as int) == Some(e as int) && e <= h.len(),
        r is None ==> string_end(h@, p as int) is None,
{
    let mut q = p;
    while q < h.len()
        invariant
            q <= h.len(),
            string_end(h@, p as int) == string_end(h@, q as int),
        decreases h.len() - q,
    {
        let c = h[q];
        if c == '"' {
            return Some(q + 1);
        } else if c == '\\' {
            if q + 1 < h.len() {
                let e = h[q + 1];
                if e == '"' || e == '\\' || e == '/' || e == 'b' || e == 'f' || e == 'n' || e == 'r' || e == 't' {
                    q = q + 2;
                    continue;
                }
                if e == 'u' && h.len() - q > 5 && hex(h[q + 2]) && hex(h[q + 3]) && hex(h[q + 4]) && hex(h[q + 5]) {
                    q = q + 6;
                    continue;
                }
            }
            return None;
        } else if (c as u32) < 0x20 {
            return None;
        }
        q = q + 1;
    }
    None
}

fn digits(h: &Vec<char>, p: usize) -> (r: usize)
    requires
        p <= h.len(),
    ensures
        r == digits_end(h@, p as int),
        p <= r <= h.len(),
{
    let mut q = p;
    while q < h.len() && '0' <= h[q] && h[q] <= '9'
        invariant
            p <= q <= h.len(),
            digits_end(h@, p as int) == digits_end(h@, q as int),
        decreases h.len() - q,
    {
        q = q + 1;
    }
    q
}

fn num_end(h: &Vec<char>, p: usize) -> (r: Option<usize>)
    requires
        p <= h.len(),
    ensures
        r matches Some(e) ==> number_end(h@, p as int) == Some(e as int) && e <= h.len(),
        r is None ==> number_end(h@, p as int) is None,
{
    let a = if p < h.len() && h[p] == '-' { p + 1 } else { p };
    if !(a < h.len() && '0' <= h[a] && h[a] <= '9') {
        return None;
    }
    let b = if h[a] == '0' { a + 1 } else { digits(h, a) };
    let c = if b < h.len() && h[b] == '.' {
        if b + 1 < h.len() && '0' <= h[b + 1] && h[b + 1] <= '9' {
            digits(h, b + 1)
        } else {
            return None;
        }
    } else {
        b
    };
    if c < h.len() && (h[c] == 'e' || h[c] == 'E') {
        let d = if c + 1 < h.len() && (h[c + 1] == '+' || h[c + 1] == '-') { c + 2 } else { c + 1 };
        if d < h.len() && '0' <= h[d] && h[d] <= '9' {
            Some(digits(h, d))
        } else {
            None
        }
    } else {
        Some(c)
    }
}

fn val_end(h: &Vec<char>, p: usize) -> (r: Option<usize>)
    requires
        p <= h.len(),
    ensures
        r matches Some(e) ==> value_end(h@, p as int) == Some(e as int) && e <= h.len(),
        r is None ==> value_end(h@, p as int) is None,
{
    if p < h.len() && h[p] == '"' {
        return str_end(h, p + 1);
    }
    let mut t: Vec<char> = Vec::new();
    t.push('t');
    t.push('r');
    t.push('u');
    t.push('e');
    assert(t@ =~= seq!['t', 'r', 'u', 'e']);
    let mut f: Vec<char> = Vec::new();
    f.push('f');
    f.push('a');
    f.push('l');
    f.push('s');
    f.push('e');
    assert(f@ =~= seq!['f', 'a', 'l', 's', 'e']);
    let mut n: Vec<char> = Vec::new();
    n.push('n');
    n.push('u');
    n.push('l');
    n.push('l');
    assert(n@ =~= seq!['n', 'u', 'l', 'l']);
    if starts_with_at(h, &t, p) {
        Some(p + 4)
    } else if starts_with_at(h, &f, p) {
        Some(p + 5)
    } else if starts_with_at(h, &n, p) {
        Some(p + 4)
    } else {
        num_end(h, p)
    }
}

fn obj_members_end(h: &Vec<char>, p: usize) -> (r: Option<usize>)
    requires
        p <= h.len(),
    ensures
        r matches Some(e) ==> members_end(h@, p as int) == Some(e as int) && e <= h.len(),
        r is None ==> members_end(h@, p as int) is None,
{
    let mut q = p;
    loop
        invariant
            q <= h.len(),
            members_end(h@, p as int) == members_end(h@, q as int),
        decreases h.len() - q,
    {
        if !(q < h.len() && h[q] == '"') {
            return None;
        }
        let k = match str_end(h, q + 1) {
            Some(k) => k,
            None => return None,
        };
        let c = skip_jws(h, k);
        if !(c < h.len() && h[c] == ':') {
            return None;
        }
        let v = skip_jws(h, c + 1);
        let e = match val_end(h, v) {
            Some(e) => e,
            None => return None,
        };
        let n = skip_jws(h, e);
        if n < h.len() && h[n] == '}' {
            return Some(n + 1);
        }
        if !(n < h.len() && h[n] == ',') {
            return None;
        }
        let nq = skip_jws(h, n + 1);
        if !(q < nq && nq <= h.len()) {
            return None;
        }
        q = nq;
    }
}

/// Whether the text is one complete JSON object (see [`json_object`]).
pub fn is_json_object(h: &Vec<char>) -> (r: bool)
    ensures
        r == json_object(h@),
{
    let a = skip_jws(h, 0);
    if !(a < h.len() && h[a] == '{') {
        return false;
    }
    let b = skip_jws(h, a + 1);
    let end = if b < h.len() && h[b] == '}' { Some(b + 1) } else { obj_members_end(h, b) };
    match end {
        Some(e) => skip_jws(h, e) == h.len(),
        None => false,
    }
}

/// Parse the stored `phosk.cfg` JSON (a flat object of string and boolean
/// values) into values for the known keys, in key order. Text that is not
/// one complete JSON object gives nothing, so the defaults stand; in an
/// object, unknown keys and values of the wrong kind are skipped.
pub fn parse_stored(raw: &str) -> (r: Vec<(usize, CfgVal)>)
    ensures
        forall|j: int| 0 <= j < r.len() ==> r@[j].0 < CFG_COUNT,
        r@.map_values(|e: (usize, CfgVal)| edit_view(e)) == stored_entries(raw@),
{
    let h = chars_of(raw);
    let mut out: Vec<(usize, CfgVal)> = Vec::new();
    if !is_json_object(&h) {
        assert(out@.map_values(|e: (usize, CfgVal)| edit_view(e)) =~= stored_entries(raw@));
        return out;
    }
    let mut i: usize = 0;
    while i < CFG_COUNT
        invariant
            i <= CFG_COUNT,
            h@ == raw@,
            forall|j: int| 0 <= j < out.len() ==> out@[j].0 < i,
            out@.map_values(|e: (usize, CfgVal)| edit_view(e)) == parsed_upto(raw@, i as int),
        decreases CFG_COUNT - i,
    {
        let ghost before = out@;
        match read_entry(&h, i) {
            Some(v) => {
                out.push((i, v));
            },
            None => {},
        }
        assert(out@.map_values(|e: (usize, CfgVal)| edit_view(e)) =~= parsed_upto(raw@, i + 1));
        i = i + 1;
    }
    out
}


/// The store `s` after adopting the parsed entries `e` in order, each only
/// when it is of the same kind as the value it replaces.
pub open spec fn merge_entries(s: Seq<CfgV>, e: Seq<(int, CfgV)>) -> Seq<CfgV>
    decreases e.len(),
{
    if e.len() == 0 {
        s
    } else {
        let m = merge_entries(s, e.drop_last());
        let last = e.last();
        if same_kind(m[last.0], last.1) {
            m.update(last.0, last.1)
        } else {
            m
        }
    }
}

impl CfgStore {
    /// Adopt the parsed stored entries over the current values, keeping each
    /// value's kind (a string stays a string, a switch a switch).
    pub fn merge(&mut self, parsed: &Vec<(usize, CfgVal)>)
        requires
            old(self).wf(),
            forall|j: int| 0 <= j < parsed.len() ==> parsed@[j].0 < CFG_COUNT,
        ensures
            final(self).wf(),
            final(self)@ == merge_entries(old(self)@, parsed@.map_values(|e: (usize, CfgVal)| edit_view(e))),
    {
        let ghost s0 = self@;
        let mut vals: Vec<CfgVal> = Vec::new();
        std::mem::swap(&mut vals, &mut self.vals);
        let ghost ev = parsed@.map_values(|e: (usize, CfgVal)| edit_view(e));
        let mut i: usize = 0;
        while i < parsed.len()
            invariant
                i <= parsed.len(),
                vals.len() == CFG_COUNT,
                ev == parsed@.map_values(|e: (usize, CfgVal)| edit_view(e)),
                forall|j: int| 0 <= j < parsed.len() ==> parsed@[j].0 < CFG_COUNT,
                vals@.map_values(|v: CfgVal| v@) == merge_entries(s0, ev.take(i as int)),
            decreases parsed.len() - i,
        {
            let k = parsed[i].0;
            let ghost before = vals@;
            proof {
                assert(ev.take(i + 1).drop_last() =~= ev.take(i as int));
                assert(ev.take(i + 1).last() == ev[i as int]);
                assert(before.map_values(|v: CfgVal| v@)[k as int] == before[k as int]@);
            }
            let same = match (&vals[k], &parsed[i].1) {
                (CfgVal::Str(_), CfgVal::Str(_)) => true,
                (CfgVal::Bool(_), CfgVal::Bool(_)) => true,
                _ => false,
            };
            if same {
                let v = parsed[i].1.copy();
                vals.set(k, v);
                proof {
                    assert(vals@.map_values(|v: CfgVal| v@) =~= before.map_values(|v: CfgVal| v@).update(k as int, v@));
                }
            }
            i = i + 1;
        }
        proof {
            assert(ev.take(parsed.len() as int) =~= ev);
        }
        self.vals = vals;
    }

    /// Read the stored JSON text over the current values: text that is not
    /// one complete JSON object changes nothing; in an object, unknown keys
    /// and values of the wrong kind are ignored.
    pub fn load(&mut self, raw: &str)
        requires
            old(self).wf(),
        ensures
            final(self).wf(),
            final(self)@ == merge_entries(old(self)@, stored_entries(raw@)),
            !json_object(raw@) ==> final(self)@ == old(self)@,
    {
        let parsed = parse_stored(raw);
        self.merge(&parsed);
    }
}


// ── CORE panel: server-backed preferences ─────────────────────────────────────

/// One write against the settings service.
#[derive(Clone, Debug, PartialEq)]
pub enum PrefWrite {
    /// Set `key` to one of its server-provided allowed values.
    SetValue(String, String),
    /// Reset `key` to its factory value.
    Reset(String),
    /// Reset every known key ("Reset all").
    ResetAll,
}

impl PrefWrite {
    /// The row this write targets (`"*"` = every row).
    pub fn target(&self) -> (r: String)
        ensures
            r@ == match self {
                PrefWrite::SetValue(k, _) => k@,
                PrefWrite::Reset(k) => k@,
                PrefWrite::ResetAll => seq!['*'],
            },
    {
        match self {
            PrefWrite::SetValue(k, _) => k.clone(),
            PrefWrite::Reset(k) => k.clone(),
            PrefWrite::ResetAll => {
                let mut v: Vec<char> = Vec::new();
                v.push('*');
                assert(v@ =~= seq!['*']);
                string_of(&v)
            },
        }
    }
}

/// A value made only of digits and dots (and not empty).
pub open spec fn numeric_text(v: Seq<char>) -> bool {
    v.len() > 0 && forall|i: int| 0 <= i < v.len() ==> (is_digit(v[i]) || v[i] == '.')
}

/// A value made only of digits and dots renders in the display numerals.
pub fn is_numeric(v: &str) -> (r: bool)
    ensures
        r == numeric_text(v@),
{
    let c = chars_of(v);
    if c.len() == 0 {
        return false;
    }
    let mut i: usize = 0;
    while i < c.len()
        invariant
            c@ == v@,
            i <= c.len(),
            forall|j: int| 0 <= j < i ==> (is_digit(c@[j]) || c@[j] == '.'),
        decreases c.len() - i,
    {
        let ch = c[i];
        if !(('0' <= ch && ch <= '9') || ch == '.') {
            return false;
        }
        i = i + 1;
    }
    true
}

/// Row label and hint for a known settings key; an unknown key is its own
/// label with no hint.
pub open spec fn pref_copy_of(key: Seq<char>) -> (Seq<char>, Seq<char>) {
    if key == "momentum_baseline_cycles"@ {
        ("Momentum baseline"@, "Trailing cycles averaged for every momentum delta"@)
    } else if key == "currency"@ {
        ("Currency"@, "Amounts are exact CHF centimes"@)
    } else if key == "cycle_period"@ {
        ("Budget cycle"@, "Budgets run on calendar-month cycles"@)
    } else if key == "low_confidence_threshold"@ {
        ("Low-confidence threshold"@, "AI proposals scoring below it are flagged for review"@)
    } else if key == "telemetry"@ {
        ("Telemetry"@, "Nothing leaves this device"@)
    } else {
        (key, ""@)
    }
}

/// Row label and hint for a settings key (presentation only).
pub fn pref_copy(key: &str) -> (r: (String, String))
    ensures
        (r.0@, r.1@) == pref_copy_of(key@),
{
    let (label, hint): (&str, &str) = if str_eq(key, "momentum_baseline_cycles") {
        ("Momentum baseline", "Trailing cycles averaged for every momentum delta")
    } else if str_eq(key, "currency") {
        ("Currency", "Amounts are exact CHF centimes")
    } else if str_eq(key, "cycle_period") {
        ("Budget cycle", "Budgets run on calendar-month cycles")
    } else if str_eq(key, "low_confidence_threshold") {
        ("Low-confidence threshold", "AI proposals scoring below it are flagged for review")
    } else if str_eq(key, "telemetry") {
        ("Telemetry", "Nothing leaves this device")
    } else {
        (key, "")
    };
    (string_from(label), string_from(hint))
}

/// The status a CORE row shows.
pub open spec fn pref_status_of(saving: bool, user_modified: bool, allowed: nat) -> Seq<char> {
    if saving {
        "SAVING…"@
    } else if user_modified {
        "CHANGED"@
    } else if allowed <= 1 {
        "FIXED"@
    } else {
        "DEFAULT"@
    }
}

/// The status a CORE row shows: saving, changed by the user, locked (one
/// allowed value) or at its default.
pub fn pref_status(saving: bool, user_modified: bool, allowed: usize) -> (r: &'static str)
    ensures
        r@ == pref_status_of(saving, user_modified, allowed as nat),
{
    if saving {
        "SAVING…"
    } else if user_modified {
        "CHANGED"
    } else if allowed <= 1 {
        "FIXED"
    } else {
        "DEFAULT"
    }
}

/// The control a CORE row uses, from its allowed values.
#[derive(Clone, Copy, Debug, PartialEq, Eq)]
pub enum PrefControl {
    /// One allowed value: a disabled segmented control.
    Locked,
    /// More than four values: a select.
    Select,
    /// Two to four values: a segmented control.
    Segmented,
}

/// The control for a row with `allowed` values.
pub fn pref_control(allowed: usize) -> (r: PrefControl)
    ensures
        r == (if allowed <= 1 {
            PrefControl::Locked
        } else if allowed > 4 {
            PrefControl::Select
        } else {
            PrefControl::Segmented
        }),
{
    if allowed <= 1 {
        PrefControl::Locked
    } else if allowed > 4 {
        PrefControl::Select
    } else {
        PrefControl::Segmented
    }
}

/// Whether a CORE row shows as saving: a reset of every row, or a write to
/// this row, is in flight.
pub open spec fn row_saving_of(busy: Option<Seq<char>>, key: Seq<char>) -> bool {
    busy == Some(seq!['*']) || busy == Some(key)
}

/// Whether the row `key` shows as saving while the write targeting `busy`
/// runs.
pub fn row_saving(busy: &Option<String>, key: &str) -> (r: bool)
    ensures
        r == row_saving_of(
            match busy {
                Some(b) => Some(b@),
                None => None,
            },
            key@,
        ),
{
    match busy {
        None => false,
        Some(b) => {
            let star = str_eq(b.as_str(), "*");
            proof {
                reveal_strlit("*");
                assert("*"@ =~= seq!['*']);
            }
            star || str_eq(b.as_str(), key)
        },
    }
}


// ── the stored text reads back what a write put there ─────────────────────────

/// A key name is a non-empty run of ASCII letters (so no quote, backslash,
/// colon, comma or brace).
pub open spec fn plain_key(k: Seq<char>) -> bool {
    k.len() > 0 && forall|t: int| 0 <= t < k.len() ==> (('a' <= #[trigger] k[t] <= 'z') || ('A' <= k[t] <= 'Z'))
}

/// Every key name is plain.
proof fn lemma_key_plain(i: int)
    requires
        0 <= i < CFG_COUNT,
    ensures
        plain_key(cfg_key_str(i)@),
{
    reveal_strlit("aiOpen");
    reveal_strlit("debtGroup");
    reveal_strlit("debtHlAuto");
    reveal_strlit("debtInsp");
    reveal_strlit("debtProjection");
    reveal_strlit("debtSort");
    reveal_strlit("debtStrategy");
    reveal_strlit("debtView");
    reveal_strlit("drillMode");
    reveal_strlit("envLayout");
    reveal_strlit("iouShow");
    reveal_strlit("momentumSort");
    reveal_strlit("showCand");
    reveal_strlit("showMomentum");
    reveal_strlit("showProj");
    reveal_strlit("showRhythm");
    reveal_strlit("showSparks");
    reveal_strlit("sigInsp");
    reveal_strlit("sigSort");
    reveal_strlit("sort");
    reveal_strlit("subAmounts");
    reveal_strlit("subGroup");
    reveal_strlit("subHlAuto");
    reveal_strlit("subInsp");
    reveal_strlit("subSort");
    reveal_strlit("subView");
    reveal_strlit("topDateFmt");
    reveal_strlit("trendMode");
    reveal_strlit("trendWindow");
}

/// Distinct key indices have distinct names.
proof fn lemma_keys_distinct(i: int, j: int)
    requires
        0 <= i < CFG_COUNT,
        0 <= j < CFG_COUNT,
        i != j,
    ensures
        cfg_key_str(i)@ != cfg_key_str(j)@,
{
    reveal_strlit("aiOpen");
    reveal_strlit("debtGroup");
    reveal_strlit("debtHlAuto");
    reveal_strlit("debtInsp");
    reveal_strlit("debtProjection");
    reveal_strlit("debtSort");
    reveal_strlit("debtStrategy");
    reveal_strlit("debtView");
    reveal_strlit("drillMode");
    reveal_strlit("envLayout");
    reveal_strlit("iouShow");
    reveal_strlit("momentumSort");
    reveal_strlit("showCand");
    reveal_strlit("showMomentum");
    reveal_strlit("showProj");
    reveal_strlit("showRhythm");
    reveal_strlit("showSparks");
    reveal_strlit("sigInsp");
    reveal_strlit("sigSort");
    reveal_strlit("sort");
    reveal_strlit("subAmounts");
    reveal_strlit("subGroup");
    reveal_strlit("subHlAuto");
    reveal_strlit("subInsp");
    reveal_strlit("subSort");
    reveal_strlit("subView");
    reveal_strlit("topDateFmt");
    reveal_strlit("trendMode");
    reveal_strlit("trendWindow");
    let a = cfg_key_str(i)@;
    let b = cfg_key_str(j)@;
    if a == b {
        assert(a.len() == b.len());
        assert(a[0] == b[0]);
        assert(a[1] == b[1]);
        assert(a[3] == b[3]);
        if a.len() > 4 {
            assert(a[4] == b[4]);
        }
    }
}


/// A string with no control characters other than newline, carriage return
/// and tab (the three the reader decodes).
pub open spec fn plain_text(s: Seq<char>) -> bool {
    forall|t: int| 0 <= t < s.len() ==> ((s[t] as u32) >= 0x20 || s[t] == '\n' || s[t] == '\r' || s[t] == '\t')
}

/// Escaping distributes over concatenation.
proof fn lemma_escape_concat(a: Seq<char>, b: Seq<char>)
    ensures
        escape(a + b) == escape(a) + escape(b),
    decreases b.len(),
{
    if b.len() == 0 {
        assert(a + b =~= a);
        assert(escape(a) + escape(b) =~= escape(a));
    } else {
        assert((a + b).drop_last() =~= a + b.drop_last());
        assert((a + b).last() == b.last());
        lemma_escape_concat(a, b.drop_last());
        assert(escape(a) + escape(b) =~= escape(a) + escape(b.drop_last()) + escape_char(b.last()));
    }
}

/// Escaping a string is escaping its first character, then the rest.
proof fn lemma_escape_front(s: Seq<char>)
    requires
        s.len() > 0,
    ensures
        escape(s) == escape_char(s[0]) + escape(s.skip(1)),
{
    assert(s =~= seq![s[0]] + s.skip(1));
    lemma_escape_concat(seq![s[0]], s.skip(1));
    assert(seq![s[0]].drop_last() =~= Seq::<char>::empty());
    reveal_with_fuel(escape, 2);
    assert(escape(seq![s[0]]) =~= escape_char(s[0]));
}

/// In escaped text every quote comes right after a backslash.
proof fn lemma_escaped_quotes(s: Seq<char>)
    ensures
        forall|t: int| #![trigger escape(s)[t]] 0 <= t < escape(s).len() && escape(s)[t] == '"' ==> t >= 1 && escape(s)[t - 1] == '\\',
    decreases s.len(),
{
    if s.len() > 0 {
        lemma_escaped_quotes(s.drop_last());
        let a = escape(s.drop_last());
        let c = s.last();
        let e = escape_char(c);
        assert(escape(s) == a + e);
        assert forall|t: int| #![trigger escape(s)[t]] 0 <= t < escape(s).len() && escape(s)[t] == '"' implies t >= 1 && escape(s)[t - 1] == '\\' by {
            if t < a.len() {
                assert(escape(s)[t] == a[t]);
                assert(escape(s)[t - 1] == a[t - 1]);
            } else {
                let u = t - a.len();
                assert(escape(s)[t] == e[u]);
                if (c as u32) < 0x20 && c != '\n' && c != '\r' && c != '\t' {
                    let d1 = ((c as u32) / 16) as int;
                    let d2 = ((c as u32) % 16) as int;
                    assert(hex_char(d1) != '"');
                    assert(hex_char(d2) != '"');
                }
                assert(u == 1);
                assert(escape(s)[t - 1] == e[0]);
            }
        }
    }
}

/// Reading back escaped text followed by a quote gives the original string.
proof fn lemma_unescape_escape(h: Seq<char>, p: int, s: Seq<char>)
    requires
        plain_text(s),
        0 <= p,
        p + escape(s).len() + 1 <= h.len(),
        h.subrange(p, p + escape(s).len() + 1) == escape(s) + seq!['"'],
    ensures
        unescape_from(h, p) == s,
    decreases s.len(),
{
    let es = escape(s);
    assert(h[p + es.len()] == (es + seq!['"'])[es.len() as int]);
    if s.len() == 0 {
        assert(es.len() == 0);
        assert(h[p] == '"');
        assert(unescape_from(h, p) =~= s);
    } else {
        lemma_escape_front(s);
        let c = s[0];
        let e = escape_char(c);
        let rest = s.skip(1);
        let er = escape(rest);
        assert(es =~= e + er);
        assert forall|t: int| 0 <= t < e.len() implies h[p + t] == e[t] by {
            assert(h.subrange(p, p + es.len() + 1)[t] == h[p + t]);
            assert((es + seq!['"'])[t] == e[t]);
        }
        assert(plain_text(rest)) by {
            assert forall|t: int| 0 <= t < rest.len() implies ((rest[t] as u32) >= 0x20 || rest[t] == '\n' || rest[t] == '\r' || rest[t] == '\t') by {
                assert(rest[t] == s[t + 1]);
            }
        }
        assert(h.subrange(p + e.len(), p + e.len() + er.len() + 1) =~= er + seq!['"']) by {
            assert forall|t: int| 0 <= t < er.len() + 1 implies h.subrange(p + e.len(), p + e.len() + er.len() + 1)[t] == (er + seq!['"'])[t] by {
                assert(h.subrange(p, p + es.len() + 1)[e.len() + t] == h[p + e.len() + t]);
                assert((es + seq!['"'])[e.len() + t] == (er + seq!['"'])[t]);
            }
        }
        lemma_unescape_escape(h, p + e.len(), rest);
        assert((c as u32) >= 0x20 || c == '\n' || c == '\r' || c == '\t');
        assert(h[p + 0] == e[0]);
        if c == '"' || c == '\\' || c == '\n' || c == '\r' || c == '\t' {
            assert(e.len() == 2);
            assert(h[p + 1] == e[1]);
            assert(h[p] == '\\');
            assert(unescaped(h[p + 1]) == c);
            assert(unescape_from(h, p) == seq![unescaped(h[p + 1])] + unescape_from(h, p + 2));
        } else {
            assert(e =~= seq![c]);
            assert(h[p] == c);
            assert(unescape_from(h, p) == seq![h[p]] + unescape_from(h, p + 1));
        }
        assert(unescape_from(h, p) =~= seq![c] + rest);
        assert(s =~= seq![c] + rest);
    }
}

/// A found occurrence is an occurrence, at or after the start.
proof fn lemma_find_some(h: Seq<char>, n: Seq<char>, p: int)
    ensures
        find_from(h, n, p) matches Some(k) ==> occurs_at(h, n, k) && p <= k,
    decreases h.len() + 1 - p,
{
    if p < 0 || p + n.len() > h.len() {
    } else if occurs_at(h, n, p) {
    } else {
        lemma_find_some(h, n, p + 1);
    }
}

/// The entry each key reads from the JSON object that a single write of
/// value `v` to key `i` produces.
#[verifier::spinoff_prover]
#[verifier::rlimit(50)]
proof fn lemma_parse_single(i: int, v: CfgV, j: int)
    requires
        0 <= i < CFG_COUNT,
        0 <= j < CFG_COUNT,
        same_kind(v, cfg_default_v(i)),
        v matches CfgV::Str(t) ==> plain_text(t),
    ensures
        parse_entry(object_text(seq![(i, v)]), j) == (if j == i { Some(v) } else { None::<CfgV> }),
{
    let e = seq![(i, v)];
    let h = object_text(e);
    let ki = cfg_key_str(i)@;
    let kj = cfg_key_str(j)@;
    let l = ki.len() as int;
    let val = value_text(v);
    lemma_key_plain(i);
    lemma_key_plain(j);
    assert(members_text(e) == member_text(e[0]));
    assert(escape(ki) =~= ki) by {
        lemma_escape_plain_key(ki);
    }
    assert(h =~= seq!['{', '"'] + ki + seq!['"', ':'] + val + seq!['}']);
    assert(h.len() == l + 5 + val.len());
    assert(h[0] == '{');
    assert(h[1] == '"');
    assert(forall|t: int| 0 <= t < l ==> #[trigger] h[2 + t] == ki[t]);
    assert(h[l + 2] == '"');
    assert(h[l + 3] == ':');
    assert(forall|t: int| 0 <= t < val.len() ==> #[trigger] h[l + 4 + t] == val[t]);
    assert(h[l + 4 + val.len()] == '}');
    let n = needle(j);
    lemma_find_some(h, n, 0);
    if j == i {
        assert(!occurs_at(h, n, 0)) by {
            if occurs_at(h, n, 0) {
                assert(h.subrange(0, n.len() as int)[0] == h[0]);
            }
        }
        assert(h.subrange(1, 1 + n.len() as int) =~= n);
        assert(find_from(h, n, 1) == Some(1int));
        assert(find_from(h, n, 0) == Some(1int));
        assert(h.subrange(l + 3, l + 4) =~= seq![':']);
        assert(find_from(h, seq![':'], 1 + n.len() as int) == Some(l + 3));
        match v {
            CfgV::Bool(b) => {
                assert(skip_ws_from(h, l + 4) == l + 4);
                if b {
                    assert(h.subrange(l + 4, l + 8) =~= seq!['t', 'r', 'u', 'e']);
                } else {
                    assert(h[l + 4] == 'f');
                    assert(!starts_at(h, seq!['t', 'r', 'u', 'e'], l + 4)) by {
                        if starts_at(h, seq!['t', 'r', 'u', 'e'], l + 4) {
                            assert(h.subrange(l + 4, l + 8)[0] == h[l + 4]);
                        }
                    }
                    assert(h.subrange(l + 4, l + 9) =~= seq!['f', 'a', 'l', 's', 'e']);
                }
            },
            CfgV::Str(t) => {
                assert(val =~= seq!['"'] + escape(t) + seq!['"']);
                assert(h[l + 4] == '"');
                assert(skip_ws_from(h, l + 4) == l + 4);
                assert(h.subrange(l + 5, l + 5 + escape(t).len() + 1) =~= escape(t) + seq!['"']) by {
                    assert forall|u: int| 0 <= u < escape(t).len() + 1 implies h.subrange(l + 5, l + 5 + escape(t).len() + 1)[u] == (escape(t) + seq!['"'])[u] by {
                        assert(h[l + 4 + (u + 1)] == val[u + 1]);
                    }
                }
                lemma_unescape_escape(h, l + 5, t);
            },
        }
    } else {
        lemma_keys_distinct(i, j);
        match find_from(h, n, 0) {
            None => {},
            Some(k) => {
                let kl = kj.len() as int;
                assert(occurs_at(h, n, k));
                assert(n.len() == kl + 2);
                assert(forall|u: int| 0 <= u < n.len() ==> #[trigger] h[k + u] == n[u]) by {
                    assert forall|u: int| 0 <= u < n.len() implies #[trigger] h[k + u] == n[u] by {
                        assert(h.subrange(k, k + n.len())[u] == h[k + u]);
                    }
                }
                assert(h[k + 0] == n[0]);
                assert(h[k] == '"');
                assert(h[k + (kl + 1)] == n[kl + 1]);
                assert(h[k + kl + 1] == '"');
                assert(forall|u: int| 0 <= u < kl ==> #[trigger] h[k + 1 + u] == kj[u]) by {
                    assert forall|u: int| 0 <= u < kl implies #[trigger] h[k + 1 + u] == kj[u] by {
                        assert(h[k + (u + 1)] == n[u + 1]);
                    }
                }
                if k == 0 {
                    assert(false);
                } else if k == 1 {
                    if kl < l {
                        assert(h[2 + kl] == ki[kl]);
                        assert(false);
                    } else if kl > l {
                        assert(h[1 + 1 + l] == kj[l]);
                        assert(false);
                    } else {
                        assert(kj =~= ki) by {
                            assert forall|u: int| 0 <= u < kl implies kj[u] == ki[u] by {
                                assert(h[1 + 1 + u] == kj[u]);
                                assert(h[2 + u] == ki[u]);
                            }
                        }
                        assert(false);
                    }
                } else if k < l + 2 {
                    assert(h[2 + (k - 2)] == ki[k - 2]);
                    assert(false);
                } else if k == l + 2 {
                    assert(h[k + 1 + 0] == kj[0]);
                    assert(false);
                } else if k == l + 3 {
                    assert(false);
                } else {
                    // the needle starts inside the value: its closing quote can
                    // only be the value's closing quote
                    let q = k + kl + 1;
                    assert(h[q - 1] == kj[kl - 1]) by {
                        assert(h[k + 1 + (kl - 1)] == kj[kl - 1]);
                    }
                    match v {
                        CfgV::Bool(b) => {
                            assert(h[q] == val[q - l - 4]);
                            assert(false);
                        },
                        CfgV::Str(t) => {
                            let et = escape(t);
                            assert(val =~= seq!['"'] + et + seq!['"']);
                            if q < l + 5 + et.len() {
                                assert(h[q] == val[q - l - 4]);
                                assert(val[q - l - 4] == et[q - l - 5]);
                                lemma_escaped_quotes(t);
                                assert(et[q - l - 6] == val[q - l - 5]);
                                assert(h[q - 1] == val[q - 1 - l - 4]);
                                assert(false);
                            } else {
                                assert(q < h.len());
                                if q == l + 6 + et.len() {
                                    assert(val.len() == et.len() + 2);
                                    assert(h[l + 4 + val.len()] == '}');
                                    assert(false);
                                }
                                assert(q == l + 5 + et.len());
                                assert(h.len() == q + 2);
                                assert(find_from(h, seq![':'], k + n.len() as int) is None) by {
                                    assert(k + n.len() == q + 1);
                                    assert(h[q + 1] == '}');
                                    assert(!occurs_at(h, seq![':'], q + 1)) by {
                                        if occurs_at(h, seq![':'], q + 1) {
                                            assert(h.subrange(q + 1, q + 2)[0] == h[q + 1]);
                                        }
                                    }
                                    assert(find_from(h, seq![':'], q + 2) is None);
                                }
                            }
                        },
                    }
                }
            },
        }
    }
}

/// A plain key needs no escaping.
proof fn lemma_escape_plain_key(k: Seq<char>)
    requires
        forall|t: int| 0 <= t < k.len() ==> (k[t] != '"' && k[t] != '\\' && (k[t] as u32) >= 0x20),
    ensures
        escape(k) == k,
    decreases k.len(),
{
    if k.len() > 0 {
        lemma_escape_plain_key(k.drop_last());
        assert(escape(k) =~= k.drop_last() + seq![k.last()]);
        assert(k =~= k.drop_last() + seq![k.last()]);
    }
}


/// Over the first `n` keys, the single-edit object reads back only its edit.
proof fn lemma_parsed_single(i: int, v: CfgV, n: int)
    requires
        0 <= i < CFG_COUNT,
        0 <= n <= CFG_COUNT,
        same_kind(v, cfg_default_v(i)),
        v matches CfgV::Str(t) ==> plain_text(t),
    ensures
        parsed_upto(object_text(seq![(i, v)]), n) == (if i < n { seq![(i, v)] } else { Seq::<(int, CfgV)>::empty() }),
    decreases n,
{
    if n > 0 {
        lemma_parsed_single(i, v, n - 1);
        lemma_parse_single(i, v, n - 1);
        let h = object_text(seq![(i, v)]);
        if i < n - 1 {
            assert(parsed_upto(h, n) =~= seq![(i, v)]);
        } else if i == n - 1 {
            assert(parsed_upto(h, n) =~= seq![(i, v)]);
        } else {
            assert(parsed_upto(h, n) =~= Seq::<(int, CfgV)>::empty());
        }
    }
}

/// Escaped text followed by a quote is a well-formed JSON string body that
/// ends right after that quote.
proof fn lemma_string_end_escape(h: Seq<char>, p: int, s: Seq<char>)
    requires
        0 <= p,
        p + escape(s).len() + 1 <= h.len(),
        h.subrange(p, p + escape(s).len() + 1) == escape(s) + seq!['"'],
    ensures
        string_end(h, p) == Some(p + escape(s).len() + 1),
    decreases s.len(),
{
    let es = escape(s);
    assert(h[p + es.len()] == (es + seq!['"'])[es.len() as int]);
    if s.len() == 0 {
        assert(es.len() == 0);
        assert(h[p] == '"');
    } else {
        lemma_escape_front(s);
        let c = s[0];
        let e = escape_char(c);
        let rest = s.skip(1);
        let er = escape(rest);
        assert(es =~= e + er);
        assert forall|t: int| 0 <= t < e.len() implies h[p + t] == e[t] by {
            assert(h.subrange(p, p + es.len() + 1)[t] == h[p + t]);
            assert((es + seq!['"'])[t] == e[t]);
        }
        assert(h.subrange(p + e.len(), p + e.len() + er.len() + 1) =~= er + seq!['"']) by {
            assert forall|t: int| 0 <= t < er.len() + 1 implies h.subrange(p + e.len(), p + e.len() + er.len() + 1)[t] == (er + seq!['"'])[t] by {
                assert(h.subrange(p, p + es.len() + 1)[e.len() + t] == h[p + e.len() + t]);
                assert((es + seq!['"'])[e.len() + t] == (er + seq!['"'])[t]);
            }
        }
        lemma_string_end_escape(h, p + e.len(), rest);
        assert(h[p + 0] == e[0]);
        if c == '"' || c == '\\' || c == '\n' || c == '\r' || c == '\t' {
            assert(e.len() == 2);
            assert(h[p + 1] == e[1]);
            assert(string_end(h, p) == string_end(h, p + 2));
        } else if (c as u32) < 0x20 {
            assert(e.len() == 6);
            let d1 = ((c as u32) / 16) as int;
            let d2 = ((c as u32) % 16) as int;
            assert(h[p + 1] == e[1]);
            assert(h[p + 2] == e[2]);
            assert(h[p + 3] == e[3]);
            assert(h[p + 4] == e[4]);
            assert(h[p + 5] == e[5]);
            assert(0 <= d1 < 16 && 0 <= d2 < 16);
            assert(is_hex(hex_char(d1)));
            assert(is_hex(hex_char(d2)));
            assert(string_end(h, p) == string_end(h, p + 6));
        } else {
            assert(e =~= seq![c]);
            assert(string_end(h, p) == string_end(h, p + 1));
        }
    }
}

/// The JSON object that a single write persists is one complete JSON object.
proof fn lemma_single_object_is_json(i: int, v: CfgV)
    requires
        0 <= i < CFG_COUNT,
    ensures
        json_object(object_text(seq![(i, v)])),
{
    let e = seq![(i, v)];
    let h = object_text(e);
    let ki = cfg_key_str(i)@;
    let l = ki.len() as int;
    let val = value_text(v);
    lemma_key_plain(i);
    assert(members_text(e) == member_text(e[0]));
    assert(escape(ki) =~= ki) by {
        lemma_escape_plain_key(ki);
    }
    assert(h =~= seq!['{', '"'] + ki + seq!['"', ':'] + val + seq!['}']);
    assert(h.len() == l + 5 + val.len());
    assert(h[0] == '{');
    assert(h[1] == '"');
    assert(h[l + 3] == ':');
    assert(forall|t: int| 0 <= t < val.len() ==> #[trigger] h[l + 4 + t] == val[t]);
    assert(h[l + 4 + val.len()] == '}');
    assert(skip_json_ws(h, 0) == 0);
    assert(skip_json_ws(h, 1) == 1);
    assert(h.subrange(2, 2 + l + 1) =~= escape(ki) + seq!['"']) by {
        assert forall|t: int| 0 <= t < l + 1 implies h.subrange(2, 2 + l + 1)[t] == (escape(ki) + seq!['"'])[t] by {
            assert(h[2 + t] == (seq!['{', '"'] + ki + seq!['"', ':'] + val + seq!['}'])[2 + t]);
        }
    }
    lemma_string_end_escape(h, 2, ki);
    assert(string_end(h, 2) == Some(l + 3));
    assert(skip_json_ws(h, l + 3) == l + 3);
    let end_v = l + 4 + val.len();
    match v {
        CfgV::Bool(b) => {
            assert(skip_json_ws(h, l + 4) == l + 4);
            if b {
                assert(h.subrange(l + 4, l + 8) =~= seq!['t', 'r', 'u', 'e']);
                assert(value_end(h, l + 4) == Some(l + 8));
            } else {
                assert(h[l + 4] == 'f');
                assert(!starts_at(h, seq!['t', 'r', 'u', 'e'], l + 4)) by {
                    if starts_at(h, seq!['t', 'r', 'u', 'e'], l + 4) {
                        assert(h.subrange(l + 4, l + 8)[0] == h[l + 4]);
                    }
                }
                assert(h.subrange(l + 4, l + 9) =~= seq!['f', 'a', 'l', 's', 'e']);
                assert(value_end(h, l + 4) == Some(l + 9));
            }
        },
        CfgV::Str(t) => {
            let et = escape(t);
            assert(val =~= seq!['"'] + et + seq!['"']);
            assert(h[l + 4] == '"');
            assert(skip_json_ws(h, l + 4) == l + 4);
            assert(h.subrange(l + 5, l + 5 + et.len() + 1) =~= et + seq!['"']) by {
                assert forall|u: int| 0 <= u < et.len() + 1 implies h.subrange(l + 5, l + 5 + et.len() + 1)[u] == (et + seq!['"'])[u] by {
                    assert(h[l + 4 + (u + 1)] == val[u + 1]);
                }
            }
            lemma_string_end_escape(h, l + 5, t);
            assert(value_end(h, l + 4) == Some(end_v));
        },
    }
    assert(value_end(h, l + 4) == Some(end_v));
    assert(skip_json_ws(h, end_v) == end_v);
    assert(members_end(h, 1) == Some(end_v + 1));
    assert(skip_json_ws(h, end_v + 1) == h.len());
}

/// Law (the store reads back what a write sent): the JSON object that setting
/// key `i` to `v` persists is read back as exactly that one entry, so loading
/// it over a store gives the store with the write applied. It holds for a value
/// of the key's own kind whose text has no control characters other than
/// newline, carriage return and tab.
pub proof fn law_write_then_read(s: Seq<CfgV>, i: int, v: CfgV)
    requires
        s.len() == CFG_COUNT,
        0 <= i < CFG_COUNT,
        same_kind(v, cfg_default_v(i)),
        same_kind(s[i], v),
        v matches CfgV::Str(t) ==> plain_text(t),
    ensures
        stored_entries(object_text(seq![(i, v)])) == seq![(i, v)],
        merge_entries(s, stored_entries(object_text(seq![(i, v)]))) == apply_edits(s, seq![(i, v)]),
{
    lemma_parsed_single(i, v, CFG_COUNT as int);
    lemma_single_object_is_json(i, v);
    let e = seq![(i, v)];
    assert(e.drop_last() =~= Seq::<(int, CfgV)>::empty());
    reveal_with_fuel(merge_entries, 2);
    reveal_with_fuel(apply_edits, 2);
    assert(merge_entries(s, e) == s.update(i, v));
    assert(apply_edits(s, e) == s.update(i, v));
}


// ── an object of several writes reads back as those writes ────────────────────

/// A write that reads back unchanged from among others: a known key, a value
/// of its default's kind, and for a string, text with no control characters
/// other than newline, carriage return and tab whose JSON text holds no quoted
/// key name.
pub open spec fn writable_entry(x: (int, CfgV)) -> bool {
    &&& 0 <= x.0 < CFG_COUNT
    &&& same_kind(x.1, cfg_default_v(x.0))
    &&& (x.1 matches CfgV::Str(t) ==> plain_text(t)
        && forall|j: int, q: int| 0 <= j < CFG_COUNT ==> !#[trigger] occurs_at(json_text(t), needle(j), q))
}

/// Writable entries, no two for the same key.
pub open spec fn writable_entries(e: Seq<(int, CfgV)>) -> bool {
    &&& forall|m: int| 0 <= m < e.len() ==> writable_entry(#[trigger] e[m])
    &&& forall|a: int, b: int| 0 <= a < b < e.len() ==> e[a].0 != e[b].0
}

/// Entries in strictly ascending key order.
pub open spec fn ascending_keys(e: Seq<(int, CfgV)>) -> bool {
    forall|a: int, b: int| 0 <= a < b < e.len() ==> e[a].0 < e[b].0
}

/// The entries of `e` for the keys below `n`, in key order.
pub open spec fn by_key(e: Seq<(int, CfgV)>, n: int) -> Seq<(int, CfgV)>
    decreases n,
{
    if n <= 0 {
        Seq::empty()
    } else {
        by_key(e, n - 1) + match entry_index(e, n - 1) {
            Some(m) => seq![e[m]],
            None => Seq::empty(),
        }
    }
}

/// Where key `j`'s entry stands in `e`, if it has one (the last such).
pub open spec fn entry_index(e: Seq<(int, CfgV)>, j: int) -> Option<int>
    decreases e.len(),
{
    if e.len() == 0 {
        None
    } else if e.last().0 == j {
        Some(e.len() - 1)
    } else {
        entry_index(e.drop_last(), j)
    }
}

/// Where entry `m`'s member text starts within `members_text(e)`.
spec fn member_pos(e: Seq<(int, CfgV)>, m: int) -> int
    decreases e.len(),
{
    if e.len() == 0 {
        0
    } else if m + 1 < e.len() {
        member_pos(e.drop_last(), m)
    } else if e.len() >= 2 {
        members_text(e.drop_last()).len() as int + 1
    } else {
        0
    }
}

/// `q` is where key `j`'s member starts within `members_text(e)`.
spec fn at_key(e: Seq<(int, CfgV)>, j: int, q: int) -> bool {
    match entry_index(e, j) {
        Some(m) => q == member_pos(e, m),
        None => false,
    }
}

/// The entries of `e` whose key is below `n`, in order.
spec fn entries_below(e: Seq<(int, CfgV)>, n: int) -> Seq<(int, CfgV)>
    decreases e.len(),
{
    if e.len() == 0 {
        Seq::empty()
    } else if e.last().0 < n {
        entries_below(e.drop_last(), n).push(e.last())
    } else {
        entries_below(e.drop_last(), n)
    }
}

/// Dropping the last entry keeps the entries writable, each of another key
/// than the last.
proof fn lemma_writable_prefix(e: Seq<(int, CfgV)>)
    requires
        writable_entries(e),
        e.len() > 0,
    ensures
        writable_entries(e.drop_last()),
        writable_entry(e.last()),
        forall|m: int| 0 <= m < e.len() - 1 ==> #[trigger] e.drop_last()[m] == e[m] && e[m].0 != e.last().0,
{
    let d = e.drop_last();
    assert(e.last() == e[e.len() - 1]);
    assert forall|m: int| 0 <= m < d.len() implies writable_entry(#[trigger] d[m]) by {
        assert(d[m] == e[m]);
    }
    assert forall|a: int, b: int| 0 <= a < b < d.len() implies d[a].0 != d[b].0 by {
        assert(d[a] == e[a]);
        assert(d[b] == e[b]);
    }
}

/// What [`entry_index`] finds is an entry of that key; when it finds none, no
/// entry has that key.
proof fn lemma_entry_index(e: Seq<(int, CfgV)>, j: int)
    ensures
        entry_index(e, j) matches Some(m) ==> 0 <= m < e.len() && e[m].0 == j,
        entry_index(e, j) is None ==> forall|m: int| 0 <= m < e.len() ==> #[trigger] e[m].0 != j,
    decreases e.len(),
{
    if e.len() > 0 {
        let d = e.drop_last();
        lemma_entry_index(d, j);
        if e.last().0 != j {
            assert forall|m: int| 0 <= m < e.len() && entry_index(e, j) is None implies #[trigger] e[m].0 != j by {
                if m < e.len() - 1 {
                    assert(d[m] == e[m]);
                }
            }
            if entry_index(d, j) is Some {
                assert(d[entry_index(d, j).unwrap()] == e[entry_index(d, j).unwrap()]);
            }
        }
    }
}

/// An occurrence of `n` in `a + c + b`, where `n` has no `c`, lies inside
/// `a` or inside `b`.
proof fn lemma_occ_split(a: Seq<char>, c: char, b: Seq<char>, n: Seq<char>, q: int)
    requires
        occurs_at(a + seq![c] + b, n, q),
        forall|t: int| 0 <= t < n.len() ==> n[t] != c,
    ensures
        (q + n.len() <= a.len() && occurs_at(a, n, q)) || (q >= a.len() + 1 && occurs_at(b, n, q - a.len() - 1)),
{
    let h = a + seq![c] + b;
    assert forall|t: int| 0 <= t < n.len() implies #[trigger] h[q + t] == n[t] by {
        assert(h.subrange(q, q + n.len())[t] == h[q + t]);
    }
    if q + n.len() <= a.len() {
        assert(a.subrange(q, q + n.len()) =~= n) by {
            assert forall|t: int| 0 <= t < n.len() implies a.subrange(q, q + n.len())[t] == n[t] by {
                assert(h[q + t] == n[t]);
                assert(h[q + t] == a[q + t]);
            }
        }
    } else if q >= a.len() + 1 {
        let r = q - a.len() - 1;
        assert(b.subrange(r, r + n.len()) =~= n) by {
            assert forall|t: int| 0 <= t < n.len() implies b.subrange(r, r + n.len())[t] == n[t] by {
                assert(h[q + t] == n[t]);
                assert(h[q + t] == b[r + t]);
            }
        }
    } else {
        assert(h[q + (a.len() - q)] == n[a.len() - q]);
        assert(h[a.len() as int] == c);
    }
}

/// An occurrence in `x` is one in any `y` that holds `x` at `o`.
proof fn lemma_occ_embed(x: Seq<char>, y: Seq<char>, o: int, n: Seq<char>, q: int)
    requires
        occurs_at(x, n, q),
        0 <= o,
        o + x.len() <= y.len(),
        y.subrange(o, o + x.len()) == x,
    ensures
        occurs_at(y, n, q + o),
{
    assert(y.subrange(q + o, q + o + n.len()) =~= n) by {
        assert forall|t: int| 0 <= t < n.len() implies y.subrange(q + o, q + o + n.len())[t] == n[t] by {
            assert(x.subrange(q, q + n.len())[t] == x[q + t]);
            assert(y.subrange(o, o + x.len())[q + t] == y[o + (q + t)]);
        }
    }
}

/// The first occurrence at or after `p` is found.
proof fn lemma_find_first(h: Seq<char>, n: Seq<char>, p: int, k: int)
    requires
        0 <= p <= k,
        occurs_at(h, n, k),
        forall|q: int| p <= q < k ==> !#[trigger] occurs_at(h, n, q),
    ensures
        find_from(h, n, p) == Some(k),
    decreases k - p,
{
    if p < k {
        assert(!occurs_at(h, n, p));
        lemma_find_first(h, n, p + 1, k);
    }
}

/// Without an occurrence at or after `p`, nothing is found.
proof fn lemma_find_none(h: Seq<char>, n: Seq<char>, p: int)
    requires
        0 <= p,
        forall|q: int| p <= q ==> !#[trigger] occurs_at(h, n, q),
    ensures
        find_from(h, n, p) is None,
    decreases h.len() + 1 - p,
{
    if p + n.len() <= h.len() {
        assert(!occurs_at(h, n, p));
        lemma_find_none(h, n, p + 1);
    }
}


/// A member's text holds key `j`'s quoted name only at its start, and only
/// when it is key `j`'s member.
#[verifier::spinoff_prover]
#[verifier::rlimit(50)]
proof fn lemma_member_occ(x: (int, CfgV), j: int, q: int)
    requires
        writable_entry(x),
        0 <= j < CFG_COUNT,
    ensures
        occurs_at(member_text(x), needle(j), q) <==> (j == x.0 && q == 0),
{
    let k = cfg_key_str(x.0)@;
    let kj = cfg_key_str(j)@;
    let l = k.len() as int;
    let lj = kj.len() as int;
    let val = value_text(x.1);
    let mt = member_text(x);
    let n = needle(j);
    lemma_key_plain(x.0);
    lemma_key_plain(j);
    lemma_escape_plain_key(k);
    assert(mt =~= seq!['"'] + k + seq!['"', ':'] + val);
    assert(mt[0] == '"');
    assert(forall|t: int| 0 <= t < l ==> #[trigger] mt[1 + t] == k[t]);
    assert(mt[l + 1] == '"');
    assert(mt[l + 2] == ':');
    assert(forall|t: int| 0 <= t < val.len() ==> #[trigger] mt[l + 3 + t] == val[t]);
    if j == x.0 {
        assert(mt.subrange(0, l + 2) =~= n);
    }
    if occurs_at(mt, n, q) {
        assert(n.len() == lj + 2);
        assert(forall|u: int| 0 <= u < n.len() ==> #[trigger] mt[q + u] == n[u]) by {
            assert forall|u: int| 0 <= u < n.len() implies #[trigger] mt[q + u] == n[u] by {
                assert(mt.subrange(q, q + n.len())[u] == mt[q + u]);
            }
        }
        assert(mt[q] == '"') by {
            assert(mt[q + 0] == n[0]);
        }
        assert(mt[q + lj + 1] == '"') by {
            assert(mt[q + (lj + 1)] == n[lj + 1]);
        }
        assert(forall|u: int| 0 <= u < lj ==> #[trigger] mt[q + 1 + u] == kj[u]) by {
            assert forall|u: int| 0 <= u < lj implies #[trigger] mt[q + 1 + u] == kj[u] by {
                assert(mt[q + (u + 1)] == n[u + 1]);
            }
        }
        if q == 0 {
            if lj < l {
                assert(mt[1 + lj] == k[lj]);
                assert(false);
            } else if lj > l {
                assert(mt[0 + 1 + l] == kj[l]);
                assert(false);
            } else {
                assert(kj =~= k) by {
                    assert forall|u: int| 0 <= u < lj implies kj[u] == k[u] by {
                        assert(mt[0 + 1 + u] == kj[u]);
                        assert(mt[1 + u] == k[u]);
                    }
                }
                if j != x.0 {
                    lemma_keys_distinct(j, x.0);
                }
            }
        } else if q <= l {
            assert(mt[1 + (q - 1)] == k[q - 1]);
            assert(false);
        } else if q == l + 1 {
            assert(mt[q + 1 + 0] == kj[0]);
            assert(false);
        } else if q == l + 2 {
            assert(false);
        } else {
            let r = q - l - 3;
            assert(val.subrange(r, r + n.len()) =~= n) by {
                assert forall|u: int| 0 <= u < n.len() implies val.subrange(r, r + n.len())[u] == n[u] by {
                    assert(mt[l + 3 + (r + u)] == val[r + u]);
                    assert(mt[q + u] == n[u]);
                }
            }
            assert(val[r] == '"') by {
                assert(mt[l + 3 + r] == val[r]);
            }
            match x.1 {
                CfgV::Bool(b) => {
                    if b {
                        assert(val =~= seq!['t', 'r', 'u', 'e']);
                    } else {
                        assert(val =~= seq!['f', 'a', 'l', 's', 'e']);
                    }
                    assert(false);
                },
                CfgV::Str(t) => {
                    assert(occurs_at(json_text(t), n, r));
                    assert(false);
                },
            }
        }
    }
}

/// Where each entry's member text stands within the members' text, and the
/// comma between neighbours.
proof fn lemma_layout(e: Seq<(int, CfgV)>, m: int)
    requires
        0 <= m < e.len(),
    ensures
        0 <= member_pos(e, m),
        member_pos(e, m) + member_text(e[m]).len() <= members_text(e).len(),
        members_text(e).subrange(member_pos(e, m), member_pos(e, m) + member_text(e[m]).len()) == member_text(e[m]),
        m + 1 < e.len() ==> members_text(e)[member_pos(e, m) + member_text(e[m]).len()] == ','
            && member_pos(e, m + 1) == member_pos(e, m) + member_text(e[m]).len() + 1,
        m + 1 == e.len() ==> member_pos(e, m) + member_text(e[m]).len() == members_text(e).len(),
    decreases e.len(),
{
    let n = e.len();
    if n == 1 {
        assert(members_text(e) == member_text(e[0]));
        assert(members_text(e).subrange(0, members_text(e).len() as int) =~= members_text(e));
    } else {
        let d = e.drop_last();
        let a = members_text(d);
        let t = member_text(e.last());
        let ms = members_text(e);
        assert(ms == a + seq![','] + t);
        assert(e.last() == e[n - 1]);
        if m + 1 < n {
            lemma_layout(d, m);
            assert(d[m] == e[m]);
            let p = member_pos(e, m);
            let mt = member_text(e[m]);
            assert(p == member_pos(d, m));
            assert(ms.subrange(p, p + mt.len()) =~= mt) by {
                assert forall|u: int| 0 <= u < mt.len() implies ms.subrange(p, p + mt.len())[u] == mt[u] by {
                    assert(a.subrange(p, p + mt.len())[u] == a[p + u]);
                    assert(ms[p + u] == a[p + u]);
                }
            }
            if m + 2 < n {
                assert(d[m + 1] == e[m + 1]);
                assert(member_pos(e, m + 1) == member_pos(d, m + 1));
                assert(ms[p + mt.len()] == a[p + mt.len()]);
            } else {
                assert(p + mt.len() == a.len());
                assert(ms[a.len() as int] == ',');
                assert(member_pos(e, m + 1) == a.len() + 1);
            }
        } else {
            assert(member_pos(e, m) == a.len() + 1);
            assert(ms.subrange(a.len() as int + 1, a.len() as int + 1 + t.len()) =~= t);
        }
    }
}


/// The members' text holds key `j`'s quoted name exactly where key `j`'s
/// member starts, and nowhere when `e` has no entry for `j`.
#[verifier::spinoff_prover]
proof fn lemma_members_occ(e: Seq<(int, CfgV)>, j: int, q: int)
    requires
        writable_entries(e),
        0 <= j < CFG_COUNT,
    ensures
        occurs_at(members_text(e), needle(j), q) <==> at_key(e, j, q),
    decreases e.len(),
{
    let n = e.len();
    let nd = needle(j);
    lemma_key_plain(j);
    let kj = cfg_key_str(j)@;
    assert(nd.len() == kj.len() + 2);
    if n == 0 {
        assert(members_text(e).len() == 0);
    } else if n == 1 {
        assert(members_text(e) == member_text(e[0]));
        assert(writable_entry(e[0]));
        lemma_member_occ(e[0], j, q);
        assert(e.last() == e[0]);
        assert(e.drop_last().len() == 0);
    } else {
        let d = e.drop_last();
        let a = members_text(d);
        let t = member_text(e.last());
        let ms = members_text(e);
        assert(ms == a + seq![','] + t);
        lemma_writable_prefix(e);
        lemma_entry_index(d, j);
        assert(forall|u: int| 0 <= u < nd.len() ==> nd[u] != ',') by {
            assert forall|u: int| 0 <= u < nd.len() implies nd[u] != ',' by {
                if 1 <= u < nd.len() - 1 {
                    assert(nd[u] == kj[u - 1]);
                }
            }
        }
        if e.last().0 == j {
            assert(entry_index(e, j) == Some(n - 1));
            assert(member_pos(e, n - 1) == a.len() + 1);
            assert(entry_index(d, j) is None) by {
                if entry_index(d, j) is Some {
                    let m = entry_index(d, j).unwrap();
                    assert(d[m] == e[m]);
                }
            }
        } else {
            assert(entry_index(e, j) == entry_index(d, j));
            if entry_index(d, j) is Some {
                let m = entry_index(d, j).unwrap();
                assert(m + 1 < n);
                assert(member_pos(e, m) == member_pos(d, m));
            }
        }
        if occurs_at(ms, nd, q) {
            lemma_occ_split(a, ',', t, nd, q);
            if q + nd.len() <= a.len() && occurs_at(a, nd, q) {
                lemma_members_occ(d, j, q);
            } else {
                lemma_member_occ(e.last(), j, q - a.len() - 1);
            }
        }
        if at_key(e, j, q) {
            if e.last().0 == j {
                lemma_member_occ(e.last(), j, 0);
                assert(ms.subrange(a.len() as int + 1, a.len() as int + 1 + t.len()) =~= t);
                lemma_occ_embed(t, ms, a.len() as int + 1, nd, 0);
            } else {
                lemma_members_occ(d, j, q);
                assert(ms.subrange(0, a.len() as int) =~= a);
                lemma_occ_embed(a, ms, 0, nd, q);
            }
        }
    }
}

/// The object's text holds key `j`'s quoted name exactly one past where key
/// `j`'s member starts.
proof fn lemma_object_occ(e: Seq<(int, CfgV)>, j: int, q: int)
    requires
        writable_entries(e),
        0 <= j < CFG_COUNT,
    ensures
        occurs_at(object_text(e), needle(j), q) <==> at_key(e, j, q - 1),
{
    let ms = members_text(e);
    let h = object_text(e);
    let nd = needle(j);
    lemma_key_plain(j);
    let kj = cfg_key_str(j)@;
    assert(nd.len() == kj.len() + 2);
    let front = seq!['{'] + ms;
    assert(h =~= front + seq!['}'] + Seq::<char>::empty());
    assert(front =~= Seq::<char>::empty() + seq!['{'] + ms);
    assert(forall|u: int| 0 <= u < nd.len() ==> nd[u] != '{' && nd[u] != '}') by {
        assert forall|u: int| 0 <= u < nd.len() implies nd[u] != '{' && nd[u] != '}' by {
            if 1 <= u < nd.len() - 1 {
                assert(nd[u] == kj[u - 1]);
            }
        }
    }
    if occurs_at(h, nd, q) {
        lemma_occ_split(front, '}', Seq::<char>::empty(), nd, q);
        lemma_occ_split(Seq::<char>::empty(), '{', ms, nd, q);
        lemma_members_occ(e, j, q - 1);
    }
    if at_key(e, j, q - 1) {
        lemma_members_occ(e, j, q - 1);
        assert(h.subrange(1, 1 + ms.len() as int) =~= ms);
        lemma_occ_embed(ms, h, 1, nd, q - 1);
    }
}


/// The value each key reads from the object of several writes: its entry's
/// value, or nothing when it has no entry.
#[verifier::spinoff_prover]
#[verifier::rlimit(50)]
proof fn lemma_parse_multi(e: Seq<(int, CfgV)>, j: int)
    requires
        writable_entries(e),
        0 <= j < CFG_COUNT,
    ensures
        parse_entry(object_text(e), j) == (match entry_index(e, j) {
            Some(m) => Some(e[m].1),
            None => None::<CfgV>,
        }),
{
    let h = object_text(e);
    let nd = needle(j);
    lemma_entry_index(e, j);
    assert forall|q: int| #[trigger] occurs_at(h, nd, q) <==> at_key(e, j, q - 1) by {
        lemma_object_occ(e, j, q);
    }
    match entry_index(e, j) {
        None => {
            lemma_find_none(h, nd, 0);
        },
        Some(m) => {
            let p = member_pos(e, m);
            let k = p + 1;
            lemma_layout(e, m);
            assert(at_key(e, j, k - 1));
            assert(occurs_at(h, nd, k));
            assert forall|q: int| 0 <= q < k implies !#[trigger] occurs_at(h, nd, q) by {
                assert(!at_key(e, j, q - 1));
            }
            lemma_find_first(h, nd, 0, k);
            let x = e[m];
            assert(writable_entry(x));
            let mt = member_text(x);
            let ms = members_text(e);
            assert(h =~= seq!['{'] + ms + seq!['}']);
            assert forall|u: int| 0 <= u < mt.len() implies #[trigger] h[k + u] == mt[u] by {
                assert(ms.subrange(p, p + mt.len())[u] == ms[p + u]);
                assert(h[1 + (p + u)] == ms[p + u]);
            }
            let kk = cfg_key_str(j)@;
            let l = kk.len() as int;
            lemma_key_plain(j);
            lemma_escape_plain_key(kk);
            let val = value_text(x.1);
            assert(mt =~= nd + seq![':'] + val);
            assert(h[k + (l + 2)] == mt[l + 2]);
            assert(h.subrange(k + l + 2, k + l + 3) =~= seq![':']);
            assert(find_from(h, seq![':'], k + nd.len()) == Some(k + l + 2));
            let v0 = k + l + 3;
            assert(forall|u: int| 0 <= u < val.len() ==> #[trigger] h[v0 + u] == val[u]) by {
                assert forall|u: int| 0 <= u < val.len() implies #[trigger] h[v0 + u] == val[u] by {
                    assert(h[k + (l + 3 + u)] == mt[l + 3 + u]);
                }
            }
            assert(v0 + val.len() < h.len());
            match x.1 {
                CfgV::Bool(b) => {
                    if b {
                        assert(val =~= seq!['t', 'r', 'u', 'e']);
                        assert(h[v0 + 0] == 't');
                        assert(skip_ws_from(h, v0) == v0);
                        assert(h.subrange(v0, v0 + 4) =~= seq!['t', 'r', 'u', 'e']) by {
                            assert forall|u: int| 0 <= u < 4 implies h.subrange(v0, v0 + 4)[u] == seq!['t', 'r', 'u', 'e'][u] by {
                                assert(h[v0 + u] == val[u]);
                            }
                        }
                    } else {
                        assert(val =~= seq!['f', 'a', 'l', 's', 'e']);
                        assert(h[v0 + 0] == 'f');
                        assert(skip_ws_from(h, v0) == v0);
                        assert(!starts_at(h, seq!['t', 'r', 'u', 'e'], v0)) by {
                            if starts_at(h, seq!['t', 'r', 'u', 'e'], v0) {
                                assert(h.subrange(v0, v0 + 4)[0] == h[v0]);
                            }
                        }
                        assert(h.subrange(v0, v0 + 5) =~= seq!['f', 'a', 'l', 's', 'e']) by {
                            assert forall|u: int| 0 <= u < 5 implies h.subrange(v0, v0 + 5)[u] == seq!['f', 'a', 'l', 's', 'e'][u] by {
                                assert(h[v0 + u] == val[u]);
                            }
                        }
                    }
                },
                CfgV::Str(t) => {
                    let et = escape(t);
                    assert(val =~= seq!['"'] + et + seq!['"']);
                    assert(h[v0 + 0] == '"');
                    assert(skip_ws_from(h, v0) == v0);
                    assert(h.subrange(v0 + 1, v0 + 1 + et.len() + 1) =~= et + seq!['"']) by {
                        assert forall|u: int| 0 <= u < et.len() + 1 implies h.subrange(v0 + 1, v0 + 1 + et.len() + 1)[u] == (et + seq!['"'])[u] by {
                            assert(h[v0 + (u + 1)] == val[u + 1]);
                        }
                    }
                    lemma_unescape_escape(h, v0 + 1, t);
                },
            }
        },
    }
}

/// Raising the bound by one adds key `n`'s entry, if `e` has one.
proof fn lemma_below_step(e: Seq<(int, CfgV)>, n: int)
    requires
        writable_entries(e),
        ascending_keys(e),
    ensures
        entries_below(e, n + 1) == entries_below(e, n) + match entry_index(e, n) {
            Some(m) => seq![e[m]],
            None => Seq::<(int, CfgV)>::empty(),
        },
    decreases e.len(),
{
    if e.len() > 0 {
        let d = e.drop_last();
        let x = e.last();
        lemma_writable_prefix(e);
        assert(ascending_keys(d)) by {
            assert forall|a: int, b: int| 0 <= a < b < d.len() implies d[a].0 < d[b].0 by {
                assert(d[a] == e[a]);
                assert(d[b] == e[b]);
            }
        }
        lemma_below_step(d, n);
        lemma_entry_index(d, n);
        if entry_index(d, n) is Some {
            let m = entry_index(d, n).unwrap();
            assert(d[m] == e[m]);
            assert(e[e.len() - 1] == x);
            assert(e[m].0 < e[e.len() - 1].0);
        }
        if x.0 < n {
            assert(entry_index(d, n) is None);
            assert(entry_index(e, n) is None);
        } else if x.0 == n {
            assert(entry_index(d, n) is None);
            assert(entry_index(e, n) == Some(e.len() - 1));
            assert(e[e.len() - 1] == x);
        } else {
            assert(entry_index(e, n) == entry_index(d, n));
        }
    }
}

/// No entry has a key below zero; every entry has one below the key count.
proof fn lemma_below_ends(e: Seq<(int, CfgV)>)
    requires
        writable_entries(e),
    ensures
        entries_below(e, 0) == Seq::<(int, CfgV)>::empty(),
        entries_below(e, CFG_COUNT as int) == e,
    decreases e.len(),
{
    if e.len() > 0 {
        lemma_writable_prefix(e);
        lemma_below_ends(e.drop_last());
        assert(e.drop_last().push(e.last()) =~= e);
    }
}

/// Over the first `n` keys, the object of several writes reads back exactly
/// the writes to those keys, in key order.
proof fn lemma_parsed_multi(e: Seq<(int, CfgV)>, n: int)
    requires
        writable_entries(e),
        0 <= n <= CFG_COUNT,
    ensures
        parsed_upto(object_text(e), n) == by_key(e, n),
    decreases n,
{
    if n > 0 {
        lemma_parsed_multi(e, n - 1);
        lemma_parse_multi(e, n - 1);
        lemma_entry_index(e, n - 1);
        let h = object_text(e);
        match entry_index(e, n - 1) {
            Some(m) => {
                assert(e[m] == (n - 1, e[m].1));
                assert(parsed_upto(h, n) =~= by_key(e, n));
            },
            None => {
                assert(parsed_upto(h, n) =~= by_key(e, n));
            },
        }
    }
}

/// In key order already, the writes are their own key-ordered list.
proof fn lemma_by_key_ascending(e: Seq<(int, CfgV)>, n: int)
    requires
        writable_entries(e),
        ascending_keys(e),
        0 <= n,
    ensures
        by_key(e, n) == entries_below(e, n),
    decreases n,
{
    if n == 0 {
        lemma_below_ends(e);
    } else {
        lemma_by_key_ascending(e, n - 1);
        lemma_below_step(e, n - 1);
    }
}

/// A writable member's text, wherever it stands, is a JSON member: a key
/// string, a colon and a value, with no whitespace between.
#[verifier::spinoff_prover]
#[verifier::rlimit(50)]
proof fn lemma_member_json(h: Seq<char>, p: int, x: (int, CfgV))
    requires
        writable_entry(x),
        0 <= p,
        p + member_text(x).len() < h.len(),
        forall|u: int| 0 <= u < member_text(x).len() ==> #[trigger] h[p + u] == member_text(x)[u],
    ensures
        h[p] == '"',
        string_end(h, p + 1) == Some(p + cfg_key_str(x.0)@.len() + 2),
        h[p + cfg_key_str(x.0)@.len() + 2] == ':',
        skip_json_ws(h, p + cfg_key_str(x.0)@.len() + 2) == p + cfg_key_str(x.0)@.len() + 2,
        skip_json_ws(h, p + cfg_key_str(x.0)@.len() + 3) == p + cfg_key_str(x.0)@.len() + 3,
        value_end(h, p + cfg_key_str(x.0)@.len() + 3) == Some(p + member_text(x).len()),
{
    let k = cfg_key_str(x.0)@;
    let l = k.len() as int;
    let val = value_text(x.1);
    let mt = member_text(x);
    lemma_key_plain(x.0);
    lemma_escape_plain_key(k);
    assert(mt =~= seq!['"'] + k + seq!['"', ':'] + val);
    assert(h[p + 0] == mt[0]);
    assert(h[p + (l + 2)] == mt[l + 2]);
    assert(h.subrange(p + 1, p + 1 + l + 1) =~= escape(k) + seq!['"']) by {
        assert forall|u: int| 0 <= u < l + 1 implies h.subrange(p + 1, p + 1 + l + 1)[u] == (escape(k) + seq!['"'])[u] by {
            assert(h[p + (1 + u)] == mt[1 + u]);
        }
    }
    lemma_string_end_escape(h, p + 1, k);
    let v0 = p + l + 3;
    assert(forall|u: int| 0 <= u < val.len() ==> #[trigger] h[v0 + u] == val[u]) by {
        assert forall|u: int| 0 <= u < val.len() implies #[trigger] h[v0 + u] == val[u] by {
            assert(h[p + (l + 3 + u)] == mt[l + 3 + u]);
        }
    }
    match x.1 {
        CfgV::Bool(b) => {
            if b {
                assert(val =~= seq!['t', 'r', 'u', 'e']);
                assert(h[v0 + 0] == 't');
                assert(h.subrange(v0, v0 + 4) =~= seq!['t', 'r', 'u', 'e']) by {
                    assert forall|u: int| 0 <= u < 4 implies h.subrange(v0, v0 + 4)[u] == seq!['t', 'r', 'u', 'e'][u] by {
                        assert(h[v0 + u] == val[u]);
                    }
                }
            } else {
                assert(val =~= seq!['f', 'a', 'l', 's', 'e']);
                assert(h[v0 + 0] == 'f');
                assert(!starts_at(h, seq!['t', 'r', 'u', 'e'], v0)) by {
                    if starts_at(h, seq!['t', 'r', 'u', 'e'], v0) {
                        assert(h.subrange(v0, v0 + 4)[0] == h[v0]);
                    }
                }
                assert(h.subrange(v0, v0 + 5) =~= seq!['f', 'a', 'l', 's', 'e']) by {
                    assert forall|u: int| 0 <= u < 5 implies h.subrange(v0, v0 + 5)[u] == seq!['f', 'a', 'l', 's', 'e'][u] by {
                        assert(h[v0 + u] == val[u]);
                    }
                }
            }
        },
        CfgV::Str(t) => {
            let et = escape(t);
            assert(val =~= seq!['"'] + et + seq!['"']);
            assert(h[v0 + 0] == '"');
            assert(h.subrange(v0 + 1, v0 + 1 + et.len() + 1) =~= et + seq!['"']) by {
                assert forall|u: int| 0 <= u < et.len() + 1 implies h.subrange(v0 + 1, v0 + 1 + et.len() + 1)[u] == (et + seq!['"'])[u] by {
                    assert(h[v0 + (u + 1)] == val[u + 1]);
                }
            }
            lemma_string_end_escape(h, v0 + 1, t);
        },
    }
}

/// Entry `m`'s member text within the object's text, and the comma or
/// closing brace right after it.
proof fn lemma_member_in_object(e: Seq<(int, CfgV)>, m: int)
    requires
        0 <= m < e.len(),
    ensures
        0 <= member_pos(e, m),
        member_pos(e, m) + 1 + member_text(e[m]).len() < object_text(e).len(),
        forall|u: int| 0 <= u < member_text(e[m]).len() ==> #[trigger] object_text(e)[member_pos(e, m) + 1 + u] == member_text(e[m])[u],
        m + 1 < e.len() ==> object_text(e)[member_pos(e, m) + 1 + member_text(e[m]).len()] == ','
            && member_pos(e, m + 1) == member_pos(e, m) + member_text(e[m]).len() + 1,
        m + 1 == e.len() ==> object_text(e)[member_pos(e, m) + 1 + member_text(e[m]).len()] == '}'
            && member_pos(e, m) + 2 + member_text(e[m]).len() == object_text(e).len(),
{
    let h = object_text(e);
    let ms = members_text(e);
    let p = member_pos(e, m);
    let mt = member_text(e[m]);
    lemma_layout(e, m);
    assert(h =~= seq!['{'] + ms + seq!['}']);
    assert forall|u: int| 0 <= u < mt.len() implies #[trigger] h[p + 1 + u] == mt[u] by {
        assert(ms.subrange(p, p + mt.len())[u] == ms[p + u]);
        assert(h[1 + (p + u)] == ms[p + u]);
    }
    if m + 1 < e.len() {
        lemma_layout(e, m + 1);
        assert(h[1 + (p + mt.len())] == ms[p + mt.len()]);
    }
}

/// From any member on, the members of the object of several writes run to
/// its closing brace, which ends the text.
#[verifier::spinoff_prover]
#[verifier::rlimit(100)]
proof fn lemma_members_end_multi(e: Seq<(int, CfgV)>, m: int)
    requires
        writable_entries(e),
        0 <= m < e.len(),
    ensures
        members_end(object_text(e), member_pos(e, m) + 1) == Some(object_text(e).len() as int),
    decreases e.len() - m,
{
    let h = object_text(e);
    let p = member_pos(e, m);
    let x = e[m];
    let mt = member_text(x);
    assert(writable_entry(x));
    lemma_member_in_object(e, m);
    lemma_member_json(h, p + 1, x);
    let c = p + 1 + cfg_key_str(x.0)@.len() + 2;
    let after = p + 1 + mt.len();
    assert(string_end(h, p + 2) == Some(c));
    assert(skip_json_ws(h, c) == c && h[c] == ':');
    assert(value_end(h, skip_json_ws(h, c + 1)) == Some(after));
    assert(skip_json_ws(h, after) == after);
    if m + 1 < e.len() {
        let q = member_pos(e, m + 1) + 1;
        assert(q == after + 1);
        let y = e[m + 1];
        assert(writable_entry(y));
        lemma_member_in_object(e, m + 1);
        lemma_member_json(h, q, y);
        assert(skip_json_ws(h, after + 1) == q);
        lemma_members_end_multi(e, m + 1);
    }
}

/// The object of several writes is one complete JSON object.
proof fn lemma_multi_object_is_json(e: Seq<(int, CfgV)>)
    requires
        writable_entries(e),
    ensures
        json_object(object_text(e)),
{
    let h = object_text(e);
    let ms = members_text(e);
    assert(h =~= seq!['{'] + ms + seq!['}']);
    assert(skip_json_ws(h, 0) == 0);
    if e.len() == 0 {
        assert(ms.len() == 0);
        assert(h[1] == '}');
        assert(skip_json_ws(h, 1) == 1);
        assert(skip_json_ws(h, 2) == h.len());
    } else {
        lemma_layout(e, 0);
        assert(member_pos(e, 0) == 0) by {
            lemma_member_pos_first(e);
        }
        let x = e[0];
        assert(member_text(x) =~= seq!['"'] + cfg_key_str(x.0)@ + seq!['"', ':'] + value_text(x.1)) by {
            lemma_key_plain(x.0);
            lemma_escape_plain_key(cfg_key_str(x.0)@);
        }
        assert(h[1] == '"') by {
            assert(ms.subrange(0, member_text(x).len() as int)[0] == ms[0]);
        }
        assert(skip_json_ws(h, 1) == 1);
        lemma_members_end_multi(e, 0);
        assert(skip_json_ws(h, h.len() as int) == h.len());
    }
}

/// The first member starts the members' text.
proof fn lemma_member_pos_first(e: Seq<(int, CfgV)>)
    requires
        e.len() > 0,
    ensures
        member_pos(e, 0) == 0,
    decreases e.len(),
{
    if e.len() > 1 {
        lemma_member_pos_first(e.drop_last());
    }
}


/// After writes to distinct keys, each key holds its write's value, or
/// what it held before when it has none.
proof fn lemma_apply_at(s: Seq<CfgV>, e: Seq<(int, CfgV)>, j: int)
    requires
        s.len() == CFG_COUNT,
        writable_entries(e),
        0 <= j < CFG_COUNT,
    ensures
        apply_edits(s, e).len() == s.len(),
        apply_edits(s, e)[j] == match entry_index(e, j) {
            Some(m) => e[m].1,
            None => s[j],
        },
    decreases e.len(),
{
    if e.len() > 0 {
        let d = e.drop_last();
        lemma_writable_prefix(e);
        lemma_apply_at(s, d, j);
        lemma_entry_index(d, j);
        if entry_index(d, j) is Some {
            let m = entry_index(d, j).unwrap();
            assert(d[m] == e[m]);
        }
    }
}

/// Loading the key-ordered writes over a store whose values are of the
/// written kinds puts each write's value in place and keeps the rest.
proof fn lemma_merge_at(s: Seq<CfgV>, e: Seq<(int, CfgV)>, n: int, j: int)
    requires
        s.len() == CFG_COUNT,
        writable_entries(e),
        forall|m: int| 0 <= m < e.len() ==> #[trigger] same_kind(s[e[m].0], e[m].1),
        0 <= n <= CFG_COUNT,
        0 <= j < CFG_COUNT,
    ensures
        merge_entries(s, by_key(e, n)).len() == s.len(),
        merge_entries(s, by_key(e, n))[j] == match entry_index(e, j) {
            Some(m) => if j < n { e[m].1 } else { s[j] },
            None => s[j],
        },
    decreases n,
{
    lemma_entry_index(e, j);
    if n == 0 {
        assert(by_key(e, 0) =~= Seq::<(int, CfgV)>::empty());
    } else {
        let p = by_key(e, n - 1);
        lemma_merge_at(s, e, n - 1, j);
        lemma_entry_index(e, n - 1);
        match entry_index(e, n - 1) {
            None => {
                assert(by_key(e, n) =~= p);
            },
            Some(m) => {
                let x = e[m];
                assert(by_key(e, n) =~= p.push(x));
                assert(p.push(x).drop_last() =~= p);
                lemma_merge_at(s, e, n - 1, n - 1);
                assert(merge_entries(s, p)[n - 1] == s[n - 1]);
                assert(same_kind(s[e[m].0], e[m].1));
                assert(merge_entries(s, p.push(x)) == merge_entries(s, p).update(n - 1, x.1));
            },
        }
    }
}

/// Law (the store reads back several writes at once): the JSON object of
/// writes to distinct keys, in any order, is one complete JSON object, read
/// back as exactly those writes in key order (so as written, when they came
/// in key order), and loading it over a store whose values are of the
/// written kinds applies them all. It holds for values of each key's own
/// kind whose text has no control characters other than newline, carriage
/// return and tab and whose JSON text holds no quoted key name (the reader
/// would take such a value for that key's entry).
pub proof fn law_writes_then_read(s: Seq<CfgV>, e: Seq<(int, CfgV)>)
    requires
        s.len() == CFG_COUNT,
        writable_entries(e),
        forall|m: int| 0 <= m < e.len() ==> #[trigger] same_kind(s[e[m].0], e[m].1),
    ensures
        stored_entries(object_text(e)) == by_key(e, CFG_COUNT as int),
        ascending_keys(e) ==> stored_entries(object_text(e)) == e,
        merge_entries(s, stored_entries(object_text(e))) == apply_edits(s, e),
{
    lemma_multi_object_is_json(e);
    lemma_parsed_multi(e, CFG_COUNT as int);
    if ascending_keys(e) {
        lemma_by_key_ascending(e, CFG_COUNT as int);
        lemma_below_ends(e);
    }
    let a = apply_edits(s, e);
    let b = merge_entries(s, by_key(e, CFG_COUNT as int));
    lemma_merge_at(s, e, CFG_COUNT as int, 0);
    lemma_apply_at(s, e, 0);
    assert forall|j: int| 0 <= j < CFG_COUNT implies b[j] == a[j] by {
        lemma_merge_at(s, e, CFG_COUNT as int, j);
        lemma_apply_at(s, e, j);
    }
    assert(b =~= a);
}

/// Law (reset puts every preference back): the default store has no key that
/// differs from its default.
pub proof fn law_defaults_unchanged()
    ensures
        count_changed(default_store(), CFG_COUNT as int) == 0,
{
    lemma_count_defaults(CFG_COUNT as int);
}

proof fn lemma_count_defaults(n: int)
    requires
        0 <= n <= CFG_COUNT,
    ensures
        count_changed(default_store(), n) == 0,
    decreases n,
{
    if n > 0 {
        lemma_count_defaults(n - 1);
        assert(default_store()[n - 1] == cfg_default_v(n - 1));
    }
}

/// Law (only known keys, each with its default's kind, in key order): every
/// entry read from any stored text is a known key whose value is of the same
/// kind as that key's default, and the keys come in strictly ascending order.
pub proof fn law_parsed_known(h: Seq<char>, n: int)
    requires
        0 <= n <= CFG_COUNT,
    ensures
        forall|t: int| 0 <= t < parsed_upto(h, n).len() ==> {
            let e = #[trigger] parsed_upto(h, n)[t];
            0 <= e.0 < n && same_kind(e.1, cfg_default_v(e.0))
        },
        forall|a: int, b: int| 0 <= a < b < parsed_upto(h, n).len() ==> parsed_upto(h, n)[a].0 < parsed_upto(h, n)[b].0,
    decreases n,
{
    if n > 0 {
        law_parsed_known(h, n - 1);
        let p = parsed_upto(h, n - 1);
        match parse_entry(h, n - 1) {
            None => {
                assert(parsed_upto(h, n) =~= p);
            },
            Some(v) => {
                assert(parsed_upto(h, n) =~= p.push((n - 1, v)));
                assert(same_kind(v, cfg_default_v(n - 1)));
            },
        }
    }
}

/// Law (one placement for every inspector): setting the Subscriptions, Debts
/// and Analytics inspector placements to the same string makes the unified
/// placement that string.
pub proof fn law_insp_unified(s: Seq<CfgV>, t: Seq<char>)
    requires
        s.len() == CFG_COUNT,
    ensures
        insp_all_of(apply_edits(s, seq![(23int, CfgV::Str(t)), (3int, CfgV::Str(t)), (17int, CfgV::Str(t))])) == t,
{
    let e = seq![(23int, CfgV::Str(t)), (3int, CfgV::Str(t)), (17int, CfgV::Str(t))];
    assert(e.drop_last() =~= seq![(23int, CfgV::Str(t)), (3int, CfgV::Str(t))]);
    assert(e.drop_last().drop_last() =~= seq![(23int, CfgV::Str(t))]);
    assert(e.drop_last().drop_last().drop_last() =~= Seq::<(int, CfgV)>::empty());
    reveal_with_fuel(apply_edits, 4);
    let r = apply_edits(s, e);
    assert(r == s.update(23, CfgV::Str(t)).update(3, CfgV::Str(t)).update(17, CfgV::Str(t)));
}

/// The CORE panel's write state: the target of the write in flight (`"*"`
/// for a reset of every row), whether the last write was refused, and the
/// settings view `S` the last successful write answered with (it replaces
/// the rows shown).
#[derive(Clone, Debug, PartialEq, Eq)]
pub struct PrefUi<S> {
    pub busy: Option<String>,
    pub err: bool,
    pub live: Option<S>,
}

impl<S> PrefUi<S> {
    /// Nothing in flight, no refusal, no answered view yet.
    pub fn new() -> (s: PrefUi<S>)
        ensures
            s.busy is None,
            !s.err,
            s.live is None,
    {
        PrefUi { busy: None, err: false, live: None }
    }

    /// A write starts: its target shows as saving and the refusal clears.
    pub fn begin(&mut self, op: &PrefWrite)
        ensures
            final(self).busy matches Some(t) && t@ == match *op {
                PrefWrite::SetValue(k, _) => k@,
                PrefWrite::Reset(k) => k@,
                PrefWrite::ResetAll => seq!['*'],
            },
            !final(self).err,
            final(self).live == old(self).live,
    {
        self.busy = Some(op.target());
        self.err = false;
    }

    /// The write was answered: the view it answered with replaces the rows
    /// shown; a refusal is flagged and the rows keep showing the stored
    /// values. Either way nothing is in flight afterwards.
    pub fn finish(&mut self, result: Result<S, crate::calls::CallError>)
        ensures
            final(self).busy is None,
            result matches Ok(v) ==> final(self).live == Some(v) && final(self).err == old(self).err,
            result is Err ==> final(self).err && final(self).live == old(self).live,
    {
        match result {
            Ok(v) => {
                self.live = Some(v);
            },
            Err(_) => {
                self.err = true;
            },
        }
        self.busy = None;
    }
}

/// The header's counts: every local preference plus the CORE rows once
/// loaded, and how many of them differ from their defaults (the CORE count
/// saturates at the machine limit).
pub fn pref_counts(local_changed: usize, core: Option<(usize, u64)>) -> (r: (usize, usize))
    requires
        core matches Some((rows, _)) ==> CFG_COUNT + rows <= usize::MAX,
    ensures
        r.0 == CFG_COUNT + match core {
            Some((rows, _)) => rows as int,
            None => 0,
        },
        r.1 == ({
            let c: int = match core {
                Some((_, changed)) => if changed <= usize::MAX { changed as int } else { usize::MAX as int },
                None => 0,
            };
            if local_changed + c > usize::MAX { usize::MAX as int } else { local_changed + c }
        }),
{
    let (core_total, core_changed): (usize, usize) = match core {
        Some((rows, changed)) => (rows, if changed <= usize::MAX as u64 { changed as usize } else { usize::MAX }),
        None => (0, 0),
    };
    (CFG_COUNT + core_total, local_changed.saturating_add(core_changed))
}

/// The header ribbon for the changed count: `(class, text)` — coral
/// `differs from defaults` when anything changed, blue `all at defaults`
/// otherwise.
pub fn changed_ribbon(changed: usize) -> (r: (&'static str, &'static str))
    ensures
        changed > 0 ==> r == ("v coral", "differs from defaults"),
        changed == 0 ==> r == ("v blue", "all at defaults"),
{
    if changed > 0 { ("v coral", "differs from defaults") } else { ("v blue", "all at defaults") }
}

/// The reset button: `(label, class)`, confirming a reset just made.
pub fn reset_button(just_reset: bool) -> (r: (&'static str, &'static str))
    ensures
        just_reset ==> r == ("✓ Reset", "cfg-reset saved"),
        !just_reset ==> r == ("↺ Reset all", "cfg-reset"),
{
    if just_reset { ("✓ Reset", "cfg-reset saved") } else { ("↺ Reset all", "cfg-reset") }
}

/// Law (one placement, or `mixed`): the unified inspector placement is the
/// Subscriptions placement when the Debts and Analytics placements both equal
/// it, and `mixed` whenever either differs from it.
pub proof fn law_insp_all_agree(s: Seq<CfgV>)
    requires
        s.len() == CFG_COUNT,
    ensures
        cfg_key_str(23)@ == "subInsp"@,
        cfg_key_str(3)@ == "debtInsp"@,
        cfg_key_str(17)@ == "sigInsp"@,
        (cfg_text(s[3]) == cfg_text(s[23]) && cfg_text(s[17]) == cfg_text(s[23])) ==> insp_all_of(s) == cfg_text(s[23]),
        (cfg_text(s[3]) != cfg_text(s[23]) || cfg_text(s[17]) != cfg_text(s[23])) ==> insp_all_of(s) == "mixed"@,
{
}

/// Law (the changed count follows each edit): setting one key changes the
/// count of keys that differ from their defaults by exactly what that key
/// did: one more when it leaves its default, one fewer when it returns to
/// it, none otherwise. The count never exceeds the number of keys.
pub proof fn law_changed_count_step(s: Seq<CfgV>, i: int, v: CfgV)
    requires
        s.len() == CFG_COUNT,
        0 <= i < CFG_COUNT,
    ensures
        count_changed(s.update(i, v), CFG_COUNT as int) + (if s[i] != cfg_default_v(i) { 1int } else { 0int })
            == count_changed(s, CFG_COUNT as int) + (if v != cfg_default_v(i) { 1int } else { 0int }),
        count_changed(s, CFG_COUNT as int) <= CFG_COUNT,
{
    lemma_count_update(s, i, v, CFG_COUNT as int);
    lemma_count_bound(s, CFG_COUNT as int);
}

proof fn lemma_count_update(s: Seq<CfgV>, i: int, v: CfgV, n: int)
    requires
        s.len() == CFG_COUNT,
        0 <= i < CFG_COUNT,
        0 <= n <= CFG_COUNT,
    ensures
        count_changed(s.update(i, v), n) + (if i < n && s[i] != cfg_default_v(i) { 1int } else { 0int })
            == count_changed(s, n) + (if i < n && v != cfg_default_v(i) { 1int } else { 0int }),
    decreases n,
{
    if n > 0 {
        lemma_count_update(s, i, v, n - 1);
        assert(s.update(i, v)[n - 1] == if n - 1 == i { v } else { s[n - 1] });
    }
}

proof fn lemma_count_bound(s: Seq<CfgV>, n: int)
    requires
        0 <= n,
    ensures
        count_changed(s, n) <= n,
    decreases n,
{
    if n > 0 {
        lemma_count_bound(s, n - 1);
    }
}

} // verus!

//! The Categories page's decisions: where each write's saving state and error
//! show, which rename draft a successful write closes, and the page state's
//! steps around each server call.

use vstd::prelude::*;
use crate::text::{str_eq, chars_of};
use crate::config::is_ws;

verus! {

/// One write against the ledger.
#[derive(Clone, PartialEq, Debug)]
pub enum Op {
    Create { name: String, colour: String },
    Rename { from: String, to: String },
    Colour { name: String, colour: String },
    Delete(String),
    Merge { from: String, into: String },
}

/// Where an op's "saving" state and error show: a panel, or one category's
/// row. Typed, so no category name can collide with a panel.
#[derive(Clone, PartialEq, Debug)]
pub enum Target {
    Create,
    Merge,
    Row(String),
}

/// The mathematical value of a [`Target`].
pub enum TargetV {
    Create,
    Merge,
    Row(Seq<char>),
}

impl View for Target {
    type V = TargetV;

    open spec fn view(&self) -> TargetV {
        match self {
            Target::Create => TargetV::Create,
            Target::Merge => TargetV::Merge,
            Target::Row(n) => TargetV::Row(n@),
        }
    }
}

/// Where an op's status belongs: the create panel, the merge panel, or the
/// row of the category it acts on.
pub open spec fn target_of(op: Op) -> TargetV {
    match op {
        Op::Create { .. } => TargetV::Create,
        Op::Rename { from, .. } => TargetV::Row(from@),
        Op::Colour { name, .. } => TargetV::Row(name@),
        Op::Delete(name) => TargetV::Row(name@),
        Op::Merge { .. } => TargetV::Merge,
    }
}

impl Op {
    /// Where the op's status belongs.
    pub fn target(&self) -> (t: Target)
        ensures
            t@ == target_of(*self),
    {
        match self {
            Op::Create { .. } => Target::Create,
            Op::Rename { from, .. } => Target::Row(from.clone()),
            Op::Colour { name, .. } => Target::Row(name.clone()),
            Op::Delete(name) => Target::Row(name.clone()),
            Op::Merge { .. } => Target::Merge,
        }
    }
}

impl Target {
    /// Whether a successful op on this target closes the rename draft opened
    /// on `draft_from`: only the row's own draft, never another row's.
    pub fn closes_draft(&self, draft_from: &str) -> (r: bool)
        ensures
            r == (self@ == TargetV::Row(draft_from@)),
    {
        match self {
            Target::Row(name) => str_eq(name.as_str(), draft_from),
            _ => false,
        }
    }

    /// Whether two targets are the same.
    pub fn same(&self, other: &Target) -> (r: bool)
        ensures
            r == (self@ == other@),
    {
        match (self, other) {
            (Target::Create, Target::Create) => true,
            (Target::Merge, Target::Merge) => true,
            (Target::Row(a), Target::Row(b)) => str_eq(a.as_str(), b.as_str()),
            _ => false,
        }
    }

    /// A copy of the target.
    pub fn copy(&self) -> (r: Target)
        ensures
            r@ == self@,
    {
        match self {
            Target::Create => Target::Create,
            Target::Merge => Target::Merge,
            Target::Row(n) => Target::Row(n.clone()),
        }
    }
}

/// Law (panel targets never collide with a category name): a row target is
/// never the create or the merge panel, whatever the category is called.
pub proof fn law_row_targets_distinct(name: Seq<char>)
    ensures
        TargetV::Row(name) != TargetV::Create,
        TargetV::Row(name) != TargetV::Merge,
{
}

/// Law (a row op closes only its own rename draft): the target of an op on
/// one category closes a rename draft exactly when the draft was opened on
/// that category, and a panel target closes none.
pub proof fn law_row_closes_own_draft(op: Op, draft_from: Seq<char>)
    ensures
        (target_of(op) == TargetV::Row(draft_from)) ==> (match op {
            Op::Rename { from, .. } => from@ == draft_from,
            Op::Colour { name, .. } => name@ == draft_from,
            Op::Delete(name) => name@ == draft_from,
            _ => false,
        }),
        (op is Create || op is Merge) ==> target_of(op) != TargetV::Row(draft_from),
{
}

/// The merge step's preview: how many entries a merge re-points.
#[derive(Clone, PartialEq, Debug)]
pub struct MergePreview {
    pub from: String,
    pub into: String,
    /// Line items that move.
    pub line_items: u64,
    /// Entries that move in total.
    pub records: u64,
}

/// The Categories page's own state around the server calls; `V` is the
/// categories view the server answers every successful write with.
#[derive(Clone, Debug)]
pub struct CategoriesUi<V> {
    /// The view the last successful write answered with; once set it wins
    /// over the initial read.
    pub live: Option<V>,
    /// The target whose write (or merge review) is in flight.
    pub busy: Option<Target>,
    /// The last failed call: its target and message.
    pub err: Option<(Target, String)>,
    /// The create panel's typed name.
    pub new_name: String,
    /// The open rename draft: `(category, typed name)`.
    pub renaming: Option<(String, String)>,
    /// The merge panel's picks.
    pub merge_from: String,
    pub merge_into: String,
    /// The merge preview awaiting confirmation.
    pub preview: Option<MergePreview>,
}

/// Two page states agree on everything but the rename draft.
pub open spec fn others_kept<V>(a: CategoriesUi<V>, b: CategoriesUi<V>) -> bool {
    &&& a.live == b.live
    &&& a.busy == b.busy
    &&& a.err == b.err
    &&& a.new_name == b.new_name
    &&& a.merge_from == b.merge_from
    &&& a.merge_into == b.merge_into
    &&& a.preview == b.preview
}

/// The rename draft's `(category, typed name)` as text.
pub open spec fn renaming_v(r: Option<(String, String)>) -> Option<(Seq<char>, Seq<char>)> {
    match r {
        Some((f, d)) => Some((f@, d@)),
        None => None,
    }
}

/// The busy target as a value.
pub open spec fn busy_v(b: Option<Target>) -> Option<TargetV> {
    match b {
        Some(t) => Some(t@),
        None => None,
    }
}

/// The error's target and message as values.
pub open spec fn err_v(e: Option<(Target, String)>) -> Option<(TargetV, Seq<char>)> {
    match e {
        Some((t, m)) => Some((t@, m@)),
        None => None,
    }
}

/// The rename draft after a successful write on `t`: closed when `t` is the
/// draft's own row, kept otherwise.
pub open spec fn draft_after(r: Option<(Seq<char>, Seq<char>)>, t: TargetV) -> Option<(Seq<char>, Seq<char>)> {
    match r {
        Some((f, d)) => if t == TargetV::Row(f) { None } else { Some((f, d)) },
        None => None,
    }
}

impl<V> CategoriesUi<V> {
    /// The page's starting state.
    pub fn new() -> (s: CategoriesUi<V>)
        ensures
            s.live is None,
            s.busy is None,
            s.err is None,
            s.new_name@.len() == 0,
            s.renaming is None,
            s.merge_from@.len() == 0,
            s.merge_into@.len() == 0,
            s.preview is None,
    {
        CategoriesUi {
            live: None,
            busy: None,
            err: None,
            new_name: String::new(),
            renaming: None,
            merge_from: String::new(),
            merge_into: String::new(),
            preview: None,
        }
    }

    /// A write starts: its target shows as saving and any old error clears.
    /// Returns the target to hand back with the answer.
    pub fn begin_op(&mut self, op: &Op) -> (t: Target)
        ensures
            t@ == target_of(*op),
            busy_v(final(self).busy) == Some(target_of(*op)),
            final(self).err is None,
            final(self).live == old(self).live,
            final(self).new_name == old(self).new_name,
            final(self).renaming == old(self).renaming,
            final(self).merge_from == old(self).merge_from,
            final(self).merge_into == old(self).merge_into,
            final(self).preview == old(self).preview,
    {
        let t = op.target();
        self.busy = Some(t.copy());
        self.err = None;
        t
    }

    /// The write on `t` was answered. Success shows the view it answered
    /// with and clears what belonged to the write: the create panel's name,
    /// the merge panel's picks and preview, or the rename draft of that same
    /// row (never another row's). Failure keeps everything, the shown view
    /// included, and shows the message on `t`. Nothing is saving afterwards.
    pub fn finish_op(&mut self, t: Target, result: Result<V, String>)
        ensures
            final(self).busy is None,
            result matches Ok(v) ==> final(self).live == Some(v),
            result matches Err(e) ==> {
                &&& err_v(final(self).err) == Some((t@, e@))
                &&& final(self).live == old(self).live
                &&& final(self).new_name == old(self).new_name
                &&& final(self).renaming == old(self).renaming
                &&& final(self).merge_from == old(self).merge_from
                &&& final(self).merge_into == old(self).merge_into
                &&& final(self).preview == old(self).preview
            },
            result is Ok ==> {
                &&& final(self).err == old(self).err
                &&& (t@ is Create ==> final(self).new_name@.len() == 0)
                &&& (!(t@ is Create) ==> final(self).new_name == old(self).new_name)
                &&& (t@ is Merge ==> final(self).preview is None && final(self).merge_from@.len() == 0 && final(self).merge_into@.len() == 0)
                &&& (!(t@ is Merge) ==> final(self).preview == old(self).preview
                    && final(self).merge_from == old(self).merge_from
                    && final(self).merge_into == old(self).merge_into)
                &&& renaming_v(final(self).renaming) == draft_after(renaming_v(old(self).renaming), t@)
            },
    {
        match result {
            Ok(v) => {
                self.live = Some(v);
                match &t {
                    Target::Create => {
                        self.new_name = String::new();
                    },
                    Target::Merge => {
                        self.preview = None;
                        self.merge_from = String::new();
                        self.merge_into = String::new();
                    },
                    Target::Row(_) => {
                        let closes = match &self.renaming {
                            Some((f, _)) => t.closes_draft(f.as_str()),
                            None => false,
                        };
                        if closes {
                            self.renaming = None;
                        }
                    },
                }
            },
            Err(e) => {
                self.err = Some((t, e));
            },
        }
        self.busy = None;
    }

    /// The merge review starts: the merge panel shows as saving.
    pub fn begin_review(&mut self)
        ensures
            busy_v(final(self).busy) == Some(TargetV::Merge),
            final(self).err is None,
            final(self).live == old(self).live,
            final(self).preview == old(self).preview,
            final(self).renaming == old(self).renaming,
    {
        self.busy = Some(Target::Merge);
        self.err = None;
    }

    /// The merge review was answered: the preview to confirm, or the
    /// message on the merge panel.
    pub fn finish_review(&mut self, result: Result<MergePreview, String>)
        ensures
            final(self).busy is None,
            result matches Ok(p) ==> final(self).preview == Some(p) && final(self).err == old(self).err,
            result matches Err(e) ==> err_v(final(self).err) == Some((TargetV::Merge, e@)) && final(self).preview == old(self).preview,
            final(self).renaming == old(self).renaming,
            final(self).live == old(self).live,
    {
        match result {
            Ok(p) => {
                self.preview = Some(p);
            },
            Err(e) => {
                self.err = Some((Target::Merge, e));
            },
        }
        self.busy = None;
    }

    /// Open the rename draft on `name`, starting from its current name.
    pub fn start_rename(&mut self, name: String)
        ensures
            renaming_v(final(self).renaming) == Some((name@, name@)),
            others_kept(*old(self), *final(self)),
    {
        let n2 = name.clone();
        self.renaming = Some((name, n2));
    }

    /// The rename draft's text changed (ignored when no draft is open).
    pub fn edit_rename(&mut self, d: String)
        ensures
            renaming_v(final(self).renaming) == match renaming_v(old(self).renaming) {
                Some((f, _)) => Some((f, d@)),
                None => None,
            },
            others_kept(*old(self), *final(self)),
    {
        let from = match &self.renaming {
            Some((f, _)) => Some(f.clone()),
            None => None,
        };
        if let Some(f) = from {
            self.renaming = Some((f, d));
        }
    }

    /// Drop the rename draft.
    pub fn cancel_rename(&mut self)
        ensures
            final(self).renaming is None,
            others_kept(*old(self), *final(self)),
    {
        self.renaming = None;
    }

    /// The error to show on target `t`, if the last failure was there.
    pub fn err_for(&self, t: &Target) -> (r: Option<String>)
        ensures
            match r { Some(m) => Some(m@), None => None } == match err_v(self.err) {
                Some((et, m)) => if et == t@ { Some(m) } else { None },
                None => None,
            },
    {
        match &self.err {
            Some((et, m)) => if et.same(t) { Some(m.clone()) } else { None },
            None => None,
        }
    }

    /// Whether the create button is enabled: nothing is saving and the typed
    /// name is not blank.
    pub fn can_create(&self) -> (r: bool)
        ensures
            r == (self.busy is None && !blank(self.new_name@)),
    {
        self.busy.is_none() && !is_blank(self.new_name.as_str())
    }

    /// Whether the merge review button is enabled: nothing is saving and both
    /// categories are picked.
    pub fn can_review(&self) -> (r: bool)
        ensures
            r == (self.busy is None && self.merge_from@.len() > 0 && self.merge_into@.len() > 0),
    {
        self.busy.is_none() && self.merge_from.as_str().unicode_len() > 0
            && self.merge_into.as_str().unicode_len() > 0
    }
}

/// A text that is empty once whitespace is trimmed.
pub open spec fn blank(s: Seq<char>) -> bool {
    forall|i: int| 0 <= i < s.len() ==> is_ws(s[i])
}

/// Whether `s` is empty once trimmed of whitespace.
pub fn is_blank(s: &str) -> (r: bool)
    ensures
        r == blank(s@),
{
    let c = chars_of(s);
    let mut i: usize = 0;
    while i < c.len()
        invariant
            c@ == s@,
            i <= c.len(),
            forall|j: int| 0 <= j < i ==> is_ws(c@[j]),
        decreases c.len() - i,
    {
        if !crate::config::is_whitespace(c[i]) {
            return false;
        }
        i = i + 1;
    }
    true
}

/// `entry` for one, `entries` otherwise.
pub fn entries_word(uses: u64) -> (r: &'static str)
    ensures
        r@ == (if uses == 1 { "entry"@ } else { "entries"@ }),
{
    if uses == 1 { "entry" } else { "entries" }
}

/// `line item` for one, `line items` otherwise.
pub fn line_items_word(n: u64) -> (r: &'static str)
    ensures
        r@ == (if n == 1 { "line item"@ } else { "line items"@ }),
{
    if n == 1 { "line item" } else { "line items" }
}

/// How many of the categories' use counts are above zero (those carry
/// history).
pub fn used_count(uses: &Vec<u64>) -> (r: usize)
    ensures
        r == uses@.filter(|u: u64| u > 0).len(),
{
    let mut n: usize = 0;
    let mut i: usize = 0;
    while i < uses.len()
        invariant
            i <= uses.len(),
            n == uses@.take(i as int).filter(|u: u64| u > 0).len(),
            n <= i,
        decreases uses.len() - i,
    {
        proof {
            assert(uses@.take(i + 1).drop_last() =~= uses@.take(i as int));
            reveal_with_fuel(Seq::filter, 1);
        }
        if uses[i] > 0 {
            n = n + 1;
        }
        i = i + 1;
    }
    assert(uses@.take(uses.len() as int) =~= uses@);
    n
}

/// Law (each op shows on its own place): a create shows on the create panel
/// and a merge on the merge panel, never the other way round and never on a
/// row; a rename, recolour or delete shows on the row of the category it
/// acts on (a rename on the name it had), never on a panel.
pub proof fn law_op_targets(op: Op)
    ensures
        (target_of(op) is Create) <==> (op is Create),
        (target_of(op) is Merge) <==> (op is Merge),
        (target_of(op) is Row) <==> (op is Rename || op is Colour || op is Delete),
        op matches Op::Rename { from, to } ==> target_of(op) == TargetV::Row(from@),
        op matches Op::Colour { name, colour } ==> target_of(op) == TargetV::Row(name@),
        op matches Op::Delete(name) ==> target_of(op) == TargetV::Row(name@),
{
}

} // verus!

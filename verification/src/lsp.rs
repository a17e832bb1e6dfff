//! The language-server session's indexing state machine and its progress
//! parsing. Each progress event names a stage by its token; a begin event
//! activates the stage and an end event deactivates it, every event
//! re-emits an indexing update for the boundary layer, and the first end
//! event releases a single-use completion signal. Unrecognized tokens still
//! participate, as an opaque stage.

use vstd::prelude::*;

verus! {

use crate::progress::{count_capture, crate_capture, extract_counts, extract_crate_name};
use crate::text::{chars_equal, chars_to_string, dec_int, dec_value, i32_to_string, str_to_chars};
use vstd::string::StringExecFns;

/// One analysis stage of the language server; an unrecognized progress
/// token becomes an opaque stage carrying the token.
#[derive(Clone, Debug)]
pub enum IndexingStage {
    Building,
    CachePriming,
    Indexing,
    Unknown(String),
}

/// The mathematical form of a stage: the opaque case carries the token's
/// characters.
pub enum StageView {
    Building,
    CachePriming,
    Indexing,
    Unknown(Seq<char>),
}

/// The mathematical form of an `IndexingStage`.
pub open spec fn stage_view(s: IndexingStage) -> StageView {
    match s {
        IndexingStage::Building => StageView::Building,
        IndexingStage::CachePriming => StageView::CachePriming,
        IndexingStage::Indexing => StageView::Indexing,
        IndexingStage::Unknown(t) => StageView::Unknown(t@),
    }
}

/// Transient progress data extracted from one event: the stage, an optional
/// crate or item name, an optional count pair, and an optional percentage.
#[derive(Clone, Debug)]
pub struct IndexingProgress {
    pub current_crate: Option<String>,
    pub current_count: Option<u32>,
    pub total_count: Option<u32>,
    pub stage: IndexingStage,
    pub percentage: Option<u32>,
}

/// A progress token as the protocol delivers it: a name or a number.
#[derive(Clone, Debug)]
pub enum ProgressToken {
    Name(String),
    Number(i32),
}

/// One work-done progress event: the start of a stage with its title, an
/// intermediate report, or the end of the stage.
#[derive(Clone, Debug)]
pub enum WorkDoneKind {
    Begin { title: String, percentage: Option<u32> },
    Report { message: Option<String>, percentage: Option<u32> },
    End,
}

/// What a session hands the notification bus: an indexing update for its
/// project, with the advisory flag and the parsed progress.
#[derive(Clone, Debug)]
pub enum LspNotification {
    Indexing { project: String, is_indexing: bool, progress: Option<IndexingProgress> },
}

/// The stage a token names: the three known stage tokens by exact identity,
/// anything else an opaque stage holding the token (numbers are spelled
/// out).
pub open spec fn spec_stage_of(token: Seq<char>) -> StageView {
    if token == "rustAnalyzer/Building"@ {
        StageView::Building
    } else if token == "rustAnalyzer/cachePriming"@ {
        StageView::CachePriming
    } else if token == "rustAnalyzer/Indexing"@ {
        StageView::Indexing
    } else {
        StageView::Unknown(token)
    }
}

/// The stage of a progress token.
pub open spec fn token_stage(token: ProgressToken) -> StageView {
    match token {
        ProgressToken::Name(s) => spec_stage_of(s@),
        ProgressToken::Number(n) => StageView::Unknown("numeric_"@ + dec_int(n as int)),
    }
}

/// The free text of an event: the title of a begin, the message of a
/// report, nothing otherwise.
pub open spec fn msg_of(value: WorkDoneKind) -> Seq<char> {
    match value {
        WorkDoneKind::Begin { title, .. } => title@,
        WorkDoneKind::Report { message, .. } => match message {
            Some(m) => m@,
            None => Seq::empty(),
        },
        WorkDoneKind::End => Seq::empty(),
    }
}

/// The percentage an event carries, if any.
pub open spec fn pct_of(value: WorkDoneKind) -> Option<u32> {
    match value {
        WorkDoneKind::Begin { percentage, .. } => percentage,
        WorkDoneKind::Report { percentage, .. } => percentage,
        WorkDoneKind::End => None,
    }
}

/// `p` is exactly what parsing the event under the token yields: the
/// token's stage, the leftmost embedded crate name if one occurs, the
/// leftmost count pair if one occurs and both numbers fit, and the carried
/// percentage.
pub open spec fn describes_progress(
    p: IndexingProgress,
    token: ProgressToken,
    value: WorkDoneKind,
) -> bool {
    &&& stage_view(p.stage) == token_stage(token)
    &&& p.percentage == pct_of(value)
    &&& (match crate_capture(msg_of(value)) {
        Some(cc) => p.current_crate matches Some(c) && c@ == cc,
        None => p.current_crate is None,
    })
    &&& (match count_capture(msg_of(value)) {
        Some(pair) => {
            if dec_value(pair.0) <= u32::MAX && dec_value(pair.1) <= u32::MAX {
                p.current_count == Some(dec_value(pair.0) as u32) && p.total_count == Some(
                    dec_value(pair.1) as u32,
                )
            } else {
                p.current_count is None && p.total_count is None
            }
        },
        None => p.current_count is None && p.total_count is None,
    })
}

/// The stage named by a textual token, matched by exact identity against
/// the known stage tokens.
pub fn stage_of_token(token: &String) -> (r: IndexingStage)
    ensures
        stage_view(r) == spec_stage_of(token@),
{
    let t = str_to_chars(token.as_str());
    if chars_equal(&t, &str_to_chars("rustAnalyzer/Building")) {
        IndexingStage::Building
    } else if chars_equal(&t, &str_to_chars("rustAnalyzer/cachePriming")) {
        IndexingStage::CachePriming
    } else if chars_equal(&t, &str_to_chars("rustAnalyzer/Indexing")) {
        IndexingStage::Indexing
    } else {
        IndexingStage::Unknown(token.clone())
    }
}

/// The opaque stage of a numeric token, spelled out.
fn numeric_stage(n: i32) -> (r: IndexingStage)
    ensures
        stage_view(r) == StageView::Unknown("numeric_"@ + dec_int(n as int)),
{
    let mut t: String = chars_to_string(&str_to_chars("numeric_"));
    let digits = i32_to_string(n);
    t.append(digits.as_str());
    IndexingStage::Unknown(t)
}

/// Parses one progress event: the stage from the token, and the crate name,
/// counts and percentage from the event's free text. Extraction failure
/// leaves the fields empty; it is never an error.
pub fn parse_progress(token: &ProgressToken, value: &WorkDoneKind) -> (p: IndexingProgress)
    ensures
        describes_progress(p, *token, *value),
{
    let stage: IndexingStage = match token {
        ProgressToken::Name(s) => stage_of_token(s),
        ProgressToken::Number(n) => numeric_stage(*n),
    };
    let msg_chars: Vec<char> = match value {
        WorkDoneKind::Begin { title, .. } => str_to_chars(title.as_str()),
        WorkDoneKind::Report { message, .. } => match message {
            Some(m) => str_to_chars(m.as_str()),
            None => Vec::new(),
        },
        WorkDoneKind::End => Vec::new(),
    };
    let pct: Option<u32> = match value {
        WorkDoneKind::Begin { percentage, .. } => *percentage,
        WorkDoneKind::Report { percentage, .. } => *percentage,
        WorkDoneKind::End => None,
    };
    proof {
        assert(msg_chars@ =~= msg_of(*value));
    }
    let current_crate: Option<String> = match extract_crate_name(&msg_chars) {
        Some(c) => Some(chars_to_string(&c)),
        None => None,
    };
    let counts = extract_counts(&msg_chars);
    IndexingProgress {
        current_crate,
        current_count: counts.0,
        total_count: counts.1,
        stage,
        percentage: pct,
    }
}

/// A copy equal to this stage.
fn duplicate_stage(s: &IndexingStage) -> (r: IndexingStage)
    ensures
        r == *s,
{
    match s {
        IndexingStage::Building => IndexingStage::Building,
        IndexingStage::CachePriming => IndexingStage::CachePriming,
        IndexingStage::Indexing => IndexingStage::Indexing,
        IndexingStage::Unknown(t) => IndexingStage::Unknown(t.clone()),
    }
}

/// Whether two stages are the same stage.
fn stages_equal(a: &IndexingStage, b: &IndexingStage) -> (r: bool)
    ensures
        r == (stage_view(*a) == stage_view(*b)),
{
    match (a, b) {
        (IndexingStage::Building, IndexingStage::Building) => true,
        (IndexingStage::CachePriming, IndexingStage::CachePriming) => true,
        (IndexingStage::Indexing, IndexingStage::Indexing) => true,
        (IndexingStage::Unknown(x), IndexingStage::Unknown(y)) => {
            let xv = str_to_chars(x.as_str());
            let yv = str_to_chars(y.as_str());
            chars_equal(&xv, &yv)
        },
        _ => false,
    }
}

/// `a` with the first occurrence of `st` removed, if any.
pub open spec fn remove_first(a: Seq<StageView>, st: StageView) -> Seq<StageView>
    decreases a.len(),
{
    if a.len() == 0 {
        a
    } else if a[0] == st {
        a.skip(1)
    } else {
        seq![a[0]] + remove_first(a.skip(1), st)
    }
}

proof fn lemma_remove_first_at(a: Seq<StageView>, st: StageView, idx: int)
    requires
        0 <= idx < a.len(),
        a[idx] == st,
        forall|j: int| 0 <= j < idx ==> a[j] != st,
    ensures
        remove_first(a, st) == a.remove(idx),
    decreases idx,
{
    if idx == 0 {
        assert(a.skip(1) =~= a.remove(0));
    } else {
        assert(forall|j: int| 0 <= j < idx - 1 ==> a.skip(1)[j] != st);
        assert(a.skip(1)[idx - 1] == st);
        lemma_remove_first_at(a.skip(1), st, idx - 1);
        assert(seq![a[0]] + a.skip(1).remove(idx - 1) =~= a.remove(idx));
    }
}

proof fn lemma_remove_first_absent(a: Seq<StageView>, st: StageView)
    requires
        forall|j: int| 0 <= j < a.len() ==> a[j] != st,
    ensures
        remove_first(a, st) == a,
    decreases a.len(),
{
    if a.len() > 0 {
        lemma_remove_first_absent(a.skip(1), st);
        assert(seq![a[0]] + a.skip(1) =~= a);
    }
}

/// One step of the per-stage state machine: a begin activates the stage if
/// it was idle, a report changes nothing, an end returns the stage to idle.
pub open spec fn active_step(a: Seq<StageView>, st: StageView, e: WorkDoneKind) -> Seq<StageView> {
    match e {
        WorkDoneKind::Begin { .. } => if a.contains(st) {
            a
        } else {
            a.push(st)
        },
        WorkDoneKind::Report { .. } => a,
        WorkDoneKind::End => remove_first(a, st),
    }
}

/// One session's view of the indexing state machine: which stages are
/// active, and whether the single-use completion signal has already fired.
pub struct ClientState {
    project: String,
    active: Vec<IndexingStage>,
    indexed_fired: bool,
}

impl ClientState {
    /// The project this session belongs to.
    pub closed spec fn project_view(&self) -> Seq<char> {
        self.project@
    }

    /// The project root the session was created for.
    pub fn project(&self) -> (r: &String)
        ensures
            r@ == self.project_view(),
    {
        &self.project
    }

    /// The active stages, in activation order.
    pub closed spec fn active_views(&self) -> Seq<StageView> {
        self.active@.map_values(|s: IndexingStage| stage_view(s))
    }

    /// Whether the single-use completion signal has fired.
    pub closed spec fn completion_fired(&self) -> bool {
        self.indexed_fired
    }

    /// A fresh session state: nothing active, signal armed.
    pub fn new(project: String) -> (r: ClientState)
        ensures
            r.project_view() == project@,
            r.active_views() == Seq::<StageView>::empty(),
            !r.completion_fired(),
    {
        let r = ClientState { project, active: Vec::new(), indexed_fired: false };
        proof {
            assert(r.active_views() =~= Seq::<StageView>::empty());
        }
        r
    }

    /// Whether the given stage is active.
    fn contains_stage(&self, st: &IndexingStage) -> (r: bool)
        ensures
            r == self.active_views().contains(stage_view(*st)),
    {
        let n: usize = self.active.len();
        let mut i: usize = 0;
        while i < n
            invariant
                i <= n,
                n == self.active@.len(),
                forall|j: int| 0 <= j < i ==> self.active_views()[j] != stage_view(*st),
            decreases n - i,
        {
            if stages_equal(&self.active[i], st) {
                proof {
                    assert(self.active_views()[i as int] == stage_view(*st));
                }
                return true;
            }
            i = i + 1;
        }
        proof {
            if self.active_views().contains(stage_view(*st)) {
                let j = choose|j: int|
                    0 <= j < self.active_views().len() && self.active_views()[j] == stage_view(
                        *st,
                    );
                assert(false);
            }
        }
        false
    }

    /// Handles one progress event: parses it, moves the stage between idle
    /// and active, emits an indexing update whose advisory flag is lowered
    /// only by an end event, and releases the single-use completion signal
    /// on the first end event ever observed.
    pub fn progress(&mut self, token: &ProgressToken, value: &WorkDoneKind) -> (r: (
        LspNotification,
        bool,
    ))
        ensures
            (r.0 matches LspNotification::Indexing { project, is_indexing, progress } && {
                &&& project@ == old(self).project_view()
                &&& is_indexing == !(*value is End)
                &&& (progress matches Some(p) && describes_progress(p, *token, *value))
            }),
            final(self).project_view() == old(self).project_view(),
            final(self).active_views() == active_step(
                old(self).active_views(),
                token_stage(*token),
                *value,
            ),
            r.1 == ((*value is End) && !old(self).completion_fired()),
            final(self).completion_fired() == (old(self).completion_fired() || *value is End),
    {
        let prog = parse_progress(token, value);
        let st = duplicate_stage(&prog.stage);
        let ghost stv = stage_view(prog.stage);
        let ghost old_views = self.active_views();
        let mut signal: bool = false;
        match value {
            WorkDoneKind::Begin { .. } => {
                if !self.contains_stage(&st) {
                    self.active.push(st);
                    proof {
                        assert(self.active_views() =~= old_views.push(stv));
                    }
                }
            },
            WorkDoneKind::Report { .. } => {},
            WorkDoneKind::End => {
                let n: usize = self.active.len();
                let mut idx: usize = 0;
                let mut found: bool = false;
                while idx < n
                    invariant_except_break
                        idx <= n,
                        !found,
                        n == self.active@.len(),
                        old_views == self.active_views(),
                        stv == stage_view(st),
                        forall|j: int| 0 <= j < idx ==> old_views[j] != stv,
                    ensures
                        n == self.active@.len(),
                        old_views == self.active_views(),
                        stv == stage_view(st),
                        forall|j: int| 0 <= j < idx ==> old_views[j] != stv,
                        found ==> idx < n && old_views[idx as int] == stv,
                        !found ==> forall|j: int| 0 <= j < n ==> old_views[j] != stv,
                    decreases n - idx,
                {
                    if stages_equal(&self.active[idx], &st) {
                        proof {
                            assert(old_views[idx as int] == stage_view(self.active@[idx as int]));
                        }
                        found = true;
                        break ;
                    }
                    idx = idx + 1;
                }
                if found {
                    self.active.remove(idx);
                    proof {
                        lemma_remove_first_at(old_views, stv, idx as int);
                        assert(self.active_views() =~= old_views.remove(idx as int));
                    }
                } else {
                    proof {
                        lemma_remove_first_absent(old_views, stv);
                    }
                }
                if !self.indexed_fired {
                    signal = true;
                    self.indexed_fired = true;
                }
            },
        }
        let note = LspNotification::Indexing {
            project: self.project.clone(),
            is_indexing: !(matches!(value, WorkDoneKind::End)),
            progress: Some(prog),
        };
        (note, signal)
    }
}

/// The number of end events in a run: each emits the one update whose
/// advisory flag is lowered.
pub open spec fn deactivations(events: Seq<WorkDoneKind>) -> nat
    decreases events.len(),
{
    if events.len() == 0 {
        0
    } else {
        (if events[0] is End {
            1nat
        } else {
            0nat
        }) + deactivations(events.skip(1))
    }
}

/// The active set after a run of events for one stage.
pub open spec fn run_active(a: Seq<StageView>, st: StageView, events: Seq<WorkDoneKind>) -> Seq<
    StageView,
>
    decreases events.len(),
{
    if events.len() == 0 {
        a
    } else {
        run_active(active_step(a, st, events[0]), st, events.skip(1))
    }
}

/// How many completion signals a run releases, starting from the given
/// fired flag.
pub open spec fn signals(fired: bool, events: Seq<WorkDoneKind>) -> nat
    decreases events.len(),
{
    if events.len() == 0 {
        0
    } else {
        (if events[0] is End && !fired {
            1nat
        } else {
            0nat
        }) + signals(fired || events[0] is End, events.skip(1))
    }
}

proof fn lemma_reports_keep(a: Seq<StageView>, st: StageView, mids: Seq<WorkDoneKind>)
    requires
        forall|i: int| 0 <= i < mids.len() ==> mids[i] is Report,
    ensures
        run_active(a, st, mids) == a,
        deactivations(mids) == 0,
        signals(false, mids) == 0,
    decreases mids.len(),
{
    if mids.len() > 0 {
        assert(mids[0] is Report);
        assert(forall|i: int| 0 <= i < mids.skip(1).len() ==> mids.skip(1)[i] is Report);
        lemma_reports_keep(a, st, mids.skip(1));
    }
}

proof fn lemma_remove_first_push_absent(a: Seq<StageView>, st: StageView)
    requires
        !a.contains(st),
    ensures
        remove_first(a.push(st), st) == a,
    decreases a.len(),
{
    if a.len() == 0 {
        assert(a.push(st)[0] == st);
        assert(a.push(st).skip(1) =~= a);
    } else {
        assert(a[0] != st);
        assert(a.push(st)[0] == a[0]);
        assert(a.push(st).skip(1) =~= a.skip(1).push(st));
        assert(!a.skip(1).contains(st)) by {
            if a.skip(1).contains(st) {
                let j = choose|j: int| 0 <= j < a.skip(1).len() && a.skip(1)[j] == st;
                assert(a[j + 1] == st);
            }
        }
        lemma_remove_first_push_absent(a.skip(1), st);
        assert(seq![a[0]] + a.skip(1) =~= a);
    }
}

/// The law of one indexing cycle. Over a begin for a stage that is idle,
/// any number of reports, and then an end, the session's transitions give:
/// exactly one emitted update whose advisory flag is lowered (the end, the
/// one end event of the run), the stage active after the begin and through
/// every report, the active set returned exactly to what it was, and the
/// single-use completion signal released exactly once when it had not fired
/// before. Each event emits exactly one update, so the number of
/// intermediate reports changes none of this.
pub proof fn lemma_single_indexing_cycle(
    a0: Seq<StageView>,
    st: StageView,
    events: Seq<WorkDoneKind>,
)
    requires
        events.len() >= 2,
        events[0] is Begin,
        events[events.len() - 1] is End,
        forall|i: int| 1 <= i < events.len() - 1 ==> events[i] is Report,
        !a0.contains(st),
    ensures
        deactivations(events) == 1,
        run_active(a0, st, events) == a0,
        signals(false, events) == 1,
        forall|k: int|
            1 <= k < events.len() ==> run_active(a0, st, #[trigger] events.take(k)).contains(st),
{
    let mids = events.skip(1).take(events.len() - 2);
    let endv = events[events.len() - 1];
    let a1 = a0.push(st);
    assert forall|i: int| 0 <= i < mids.len() implies mids[i] is Report by {
        assert(mids[i] == events[i + 1]);
    }
    assert(active_step(a0, st, events[0]) == a1);
    assert(events.skip(1) =~= mids.push(endv));
    lemma_cycle_tail(a1, st, mids, endv);
    assert(remove_first(a1, st) == a0) by {
        lemma_remove_first_push_absent(a0, st);
    }
    assert(run_active(a0, st, events) == run_active(a1, st, events.skip(1)));
    assert(deactivations(events) == deactivations(events.skip(1)));
    assert(signals(false, events) == signals(false, events.skip(1)));
    assert(a1[a0.len() as int] == st);
    assert(a1.contains(st));
    assert forall|k: int|
        1 <= k < events.len() implies run_active(a0, st, #[trigger] events.take(k)).contains(
        st,
    ) by {
        let prefix = events.take(k);
        assert(prefix[0] == events[0]);
        assert(prefix.skip(1) =~= mids.take(k - 1));
        assert forall|i: int| 0 <= i < mids.take(k - 1).len() implies #[trigger] mids.take(
            k - 1,
        )[i] is Report by {
            assert(mids.take(k - 1)[i] == mids[i]);
        }
        lemma_reports_keep(a1, st, mids.take(k - 1));
        assert(run_active(a0, st, prefix) == run_active(a1, st, prefix.skip(1)));
        assert(run_active(a1, st, prefix.skip(1)) == a1);
    }
}

proof fn lemma_cycle_tail(a1: Seq<StageView>, st: StageView, mids: Seq<WorkDoneKind>, endv: WorkDoneKind)
    requires
        forall|i: int| 0 <= i < mids.len() ==> mids[i] is Report,
        endv is End,
    ensures
        run_active(a1, st, mids.push(endv)) == remove_first(a1, st),
        deactivations(mids.push(endv)) == 1,
        signals(false, mids.push(endv)) == 1,
    decreases mids.len(),
{
    if mids.len() == 0 {
        assert(mids.push(endv)[0] == endv);
        assert(mids.push(endv).skip(1) =~= Seq::<WorkDoneKind>::empty());
        let stepped = active_step(a1, st, endv);
        assert(run_active(stepped, st, Seq::<WorkDoneKind>::empty()) == stepped);
        assert(deactivations(Seq::<WorkDoneKind>::empty()) == 0);
        assert(signals(true, Seq::<WorkDoneKind>::empty()) == 0);
        assert(stepped == remove_first(a1, st));
    } else {
        assert(mids.push(endv)[0] == mids[0]);
        assert(mids[0] is Report);
        assert(mids.push(endv).skip(1) =~= mids.skip(1).push(endv));
        assert(forall|i: int| 0 <= i < mids.skip(1).len() ==> mids.skip(1)[i] is Report);
        lemma_cycle_tail(a1, st, mids.skip(1), endv);
        assert(active_step(a1, st, mids[0]) == a1);
    }
}

} // verus!

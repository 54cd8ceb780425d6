//! The merge engine's decisions: a state holding the merged document and the
//! chosen modes, commands that change it, and the verdict on clashes.
//!
//! The documents themselves are opaque here (`V`); the structural diff that
//! finds clashing key paths is performed by the caller.
use vstd::prelude::*;
use crate::path::views;

verus! {

/// How a merge treats a key path that holds different leaf values on both
/// sides.
#[derive(Debug, Clone, Copy, PartialEq, Eq)]
pub enum MergeMode {
    /// Any clash fails the merge.
    NeverDrop,
    /// The incoming value wins.
    Overwrite,
}

/// The format in which the merged document is written.
#[derive(Debug, Clone, Copy, PartialEq, Eq)]
pub enum OutputMode {
    Json,
    Yaml,
}

/// One instruction of a merge session.
#[derive(Debug, Clone, PartialEq, Eq)]
pub enum Command {
    SetMergeMode(MergeMode),
    SetOutputMode(OutputMode),
    MergeStdin,
    MergePath(String),
    Serialize,
}

/// Where a document to merge is read from.
#[derive(Debug, Clone, PartialEq, Eq)]
pub enum Source {
    Stdin,
    Path(String),
}

/// What the caller does after a command was applied to the state.
#[derive(Debug, Clone, PartialEq, Eq)]
pub enum Effect {
    /// Nothing: the command only changed the state.
    Nothing,
    /// Read a document from the source and merge it with `merge_document`.
    Merge(Source),
    /// Write the current value in the current output mode.
    Show,
}

/// The merge session's state.
#[derive(Debug)]
pub struct State<V> {
    pub value: Option<V>,
    pub merge_mode: MergeMode,
    pub output_mode: OutputMode,
}

/// A merge refused because of clashing key paths.
#[derive(Debug, Clone, PartialEq, Eq)]
pub struct MergeClash {
    pub keys: Vec<String>,
}

impl<V> State<V> {
    /// An empty state: no value, clashes forbidden, JSON output.
    pub fn new() -> (r: Self)
        ensures
            r.value is None,
            r.merge_mode == MergeMode::NeverDrop,
            r.output_mode == OutputMode::Json,
    {
        State { value: None, merge_mode: MergeMode::NeverDrop, output_mode: OutputMode::Json }
    }
}

/// Applies one command to the state and says what the caller must do next.
pub fn step<V>(state: State<V>, cmd: Command) -> (r: (State<V>, Effect))
    ensures
        match cmd {
            Command::SetMergeMode(mode) => r.0 == (State { merge_mode: mode, ..state }) && r.1
                == Effect::Nothing,
            Command::SetOutputMode(mode) => r.0 == (State { output_mode: mode, ..state }) && r.1
                == Effect::Nothing,
            Command::MergeStdin => r.0 == state && r.1 == Effect::Merge(Source::Stdin),
            Command::MergePath(p) => r.0 == state && r.1 == Effect::Merge(Source::Path(p)),
            Command::Serialize => r.0 == state && r.1 == Effect::Show,
        },
{
    let mut state = state;
    match cmd {
        Command::SetMergeMode(mode) => {
            state.merge_mode = mode;
            (state, Effect::Nothing)
        },
        Command::SetOutputMode(mode) => {
            state.output_mode = mode;
            (state, Effect::Nothing)
        },
        Command::MergeStdin => (state, Effect::Merge(Source::Stdin)),
        Command::MergePath(p) => (state, Effect::Merge(Source::Path(p))),
        Command::Serialize => (state, Effect::Show),
    }
}

/// Whether a merge with these clashes fails under `mode`.
pub open spec fn merge_refused(mode: MergeMode, clashed_keys: Seq<Seq<char>>) -> bool {
    mode == MergeMode::NeverDrop && clashed_keys.len() > 0
}

/// Merges an incoming document into the state. Into an empty state the
/// incoming document is adopted as it is. Otherwise `merged` is the result of
/// the structural merge and `clashed_keys` the key paths at which both sides
/// held different leaf values: under `NeverDrop` any clash fails the merge,
/// naming every clashing path; otherwise the merged value is kept.
pub fn merge_document<V>(state: State<V>, incoming: V, merged: V, clashed_keys: Vec<String>) -> (r:
    Result<State<V>, MergeClash>)
    ensures
        state.value is None ==> r == Ok::<State<V>, MergeClash>(
            State { value: Some(incoming), ..state },
        ),
        state.value is Some && merge_refused(state.merge_mode, views(clashed_keys@)) ==> (r matches Err(
            c,
        ) && c.keys@ == clashed_keys@),
        state.value is Some && !merge_refused(state.merge_mode, views(clashed_keys@)) ==> r == Ok::<
            State<V>,
            MergeClash,
        >(State { value: Some(merged), ..state }),
{
    let mut state = state;
    match state.value {
        None => {
            state.value = Some(incoming);
            Ok(state)
        },
        Some(_) => {
            if matches!(state.merge_mode, MergeMode::NeverDrop) && clashed_keys.len() > 0 {
                Err(MergeClash { keys: clashed_keys })
            } else {
                state.value = Some(merged);
                Ok(state)
            }
        },
    }
}

/// The message of a clash: the failure, then each clashing key path on a
/// line of its own.
pub open spec fn clash_message(keys: Seq<Seq<char>>) -> Seq<char>
    decreases keys.len(),
{
    if keys.len() == 0 {
        "The merge failed due to conflicts"@
    } else {
        clash_message(keys.drop_last()) + "\n"@ + keys.last()
    }
}

impl MergeClash {
    /// The message of this clash (see `clash_message`).
    pub fn message(&self) -> (r: String)
        ensures
            r@ == clash_message(views(self.keys@)),
    {
        let mut msg = String::from_str("The merge failed due to conflicts");
        let mut i: usize = 0;
        while i < self.keys.len()
            invariant
                i <= self.keys@.len(),
                msg@ == clash_message(views(self.keys@).subrange(0, i as int)),
            decreases self.keys.len() - i,
        {
            let ghost next = views(self.keys@).subrange(0, i as int + 1);
            assert(next.drop_last() =~= views(self.keys@).subrange(0, i as int));
            msg.append("\n");
            msg.append(self.keys[i].as_str());
            i = i + 1;
        }
        assert(views(self.keys@).subrange(0, i as int) =~= views(self.keys@));
        msg
    }
}

} // verus!

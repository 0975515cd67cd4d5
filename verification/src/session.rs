//! The interactive search, as a machine: from the state of the dialogue and
//! what the user or the catalogue answered, to the next state and what to
//! do before asking again.

use crate::names::{bare, display_name};
use crate::text::{chars_equal, chars_lowered, chars_trimmed, lowered, to_chars, trimmed};
use vstd::prelude::*;
use vstd::string::*;

verus! {

/// What a line typed at the prompt asks for.
#[derive(Clone, Copy, Debug, PartialEq, Eq, Structural)]
pub enum Entered {
    /// To leave: the word `quit`, in any case, white space around it or not.
    Quit,
    /// Nothing: the line holds white space only.
    Nothing,
    /// A search for the line as it was typed.
    Query,
}

/// The word that ends the dialogue.
pub open spec fn quit_word() -> Seq<char> {
    seq!['q', 'u', 'i', 't']
}

/// What a line typed at the prompt asks for.
pub open spec fn entered(input: Seq<char>) -> Entered {
    if lowered(trimmed(input)) == quit_word() {
        Entered::Quit
    } else if trimmed(input).len() == 0 {
        Entered::Nothing
    } else {
        Entered::Query
    }
}

/// Where the dialogue stands.
#[derive(Clone, Debug, PartialEq, Eq)]
pub enum SearchState {
    /// A line is to be read at the prompt.
    AwaitingInput,
    /// The catalogue is to be searched for the query.
    AwaitingResults { query: String },
    /// One of the items is to be picked, or none.
    AwaitingChoice { items: Vec<String> },
    /// The user is to say whether the icon is to be downloaded.
    AwaitingAnswer { name: String },
    /// The dialogue is over.
    Finished,
}

/// What came in.
#[derive(Clone, Debug, PartialEq, Eq)]
pub enum SearchEvent {
    /// A line was typed.
    Typed { input: String },
    /// The search gave these names.
    Found { names: Vec<String> },
    /// The user picked the item at this place, or none.
    Chose { place: Option<usize> },
    /// The user said whether to download.
    Answered { download: bool },
}

/// What to do before asking again.
#[derive(Clone, Debug, PartialEq, Eq)]
pub enum SearchEffect {
    /// Nothing.
    Nothing,
    /// Say that no icons were found.
    SayNoneFound,
    /// Say how many icons were found.
    SayFound { count: usize },
    /// Show the icon of this name.
    Preview { name: String },
    /// Download the icon of this name.
    Download { name: String },
}

/// The model of a [`SearchState`].
pub enum StateModel {
    AwaitingInput,
    AwaitingResults { query: Seq<char> },
    AwaitingChoice { items: Seq<Seq<char>> },
    AwaitingAnswer { name: Seq<char> },
    Finished,
}

/// The model of a [`SearchEvent`].
pub enum EventModel {
    Typed { input: Seq<char> },
    Found { names: Seq<Seq<char>> },
    Chose { place: Option<usize> },
    Answered { download: bool },
}

/// The model of a [`SearchEffect`].
pub enum EffectModel {
    Nothing,
    SayNoneFound,
    SayFound { count: usize },
    Preview { name: Seq<char> },
    Download { name: Seq<char> },
}

impl View for SearchState {
    type V = StateModel;

    open spec fn view(&self) -> StateModel {
        match self {
            SearchState::AwaitingInput => StateModel::AwaitingInput,
            SearchState::AwaitingResults { query } => StateModel::AwaitingResults { query: query@ },
            SearchState::AwaitingChoice { items } => StateModel::AwaitingChoice {
                items: items.deep_view(),
            },
            SearchState::AwaitingAnswer { name } => StateModel::AwaitingAnswer { name: name@ },
            SearchState::Finished => StateModel::Finished,
        }
    }
}

impl View for SearchEvent {
    type V = EventModel;

    open spec fn view(&self) -> EventModel {
        match self {
            SearchEvent::Typed { input } => EventModel::Typed { input: input@ },
            SearchEvent::Found { names } => EventModel::Found { names: names.deep_view() },
            SearchEvent::Chose { place } => EventModel::Chose { place: *place },
            SearchEvent::Answered { download } => EventModel::Answered { download: *download },
        }
    }
}

impl View for SearchEffect {
    type V = EffectModel;

    open spec fn view(&self) -> EffectModel {
        match self {
            SearchEffect::Nothing => EffectModel::Nothing,
            SearchEffect::SayNoneFound => EffectModel::SayNoneFound,
            SearchEffect::SayFound { count } => EffectModel::SayFound { count: *count },
            SearchEffect::Preview { name } => EffectModel::Preview { name: name@ },
            SearchEffect::Download { name } => EffectModel::Download { name: name@ },
        }
    }
}

/// The names as they are offered for picking: each without the extension.
pub open spec fn offered(names: Seq<Seq<char>>) -> Seq<Seq<char>> {
    Seq::new(names.len(), |i: int| bare(names[i]))
}

/// The step of the dialogue.
///
/// At the prompt, `quit` ends the dialogue, a blank line asks again, and
/// any other line is searched for as it was typed. No names found are
/// said so, and the prompt comes back; names found are counted and
/// offered without their extension. The item picked is shown, and the
/// user is asked whether to download it; no item picked, or a place
/// where no item is, brings the prompt back. After the answer the prompt
/// comes back, with the download before it where the answer was yes. What
/// comes in out of turn changes nothing.
pub open spec fn stepped(state: StateModel, event: EventModel) -> (StateModel, EffectModel) {
    match (state, event) {
        (StateModel::AwaitingInput, EventModel::Typed { input }) => match entered(input) {
            Entered::Quit => (StateModel::Finished, EffectModel::Nothing),
            Entered::Nothing => (StateModel::AwaitingInput, EffectModel::Nothing),
            Entered::Query => (
                StateModel::AwaitingResults { query: input },
                EffectModel::Nothing,
            ),
        },
        (StateModel::AwaitingResults { query }, EventModel::Found { names }) => if names.len()
            == 0 {
            (StateModel::AwaitingInput, EffectModel::SayNoneFound)
        } else {
            (
                StateModel::AwaitingChoice { items: offered(names) },
                EffectModel::SayFound { count: names.len() as usize },
            )
        },
        (StateModel::AwaitingChoice { items }, EventModel::Chose { place }) => match place {
            Some(at) => if at < items.len() {
                (
                    StateModel::AwaitingAnswer { name: items[at as int] },
                    EffectModel::Preview { name: items[at as int] },
                )
            } else {
                (StateModel::AwaitingInput, EffectModel::Nothing)
            },
            None => (StateModel::AwaitingInput, EffectModel::Nothing),
        },
        (StateModel::AwaitingAnswer { name }, EventModel::Answered { download }) => if download {
            (StateModel::AwaitingInput, EffectModel::Download { name })
        } else {
            (StateModel::AwaitingInput, EffectModel::Nothing)
        },
        _ => (state, EffectModel::Nothing),
    }
}

/// What a line typed at the prompt asks for.
pub fn classify(input: &str) -> (r: Entered)
    ensures
        r == entered(input@),
{
    let chars = to_chars(input);
    let inner = chars_trimmed(chars.as_slice());
    let low = chars_lowered(inner);
    let mut quit: Vec<char> = Vec::new();
    quit.push('q');
    quit.push('u');
    quit.push('i');
    quit.push('t');
    assert(quit@ == quit_word());
    if chars_equal(low.as_slice(), quit.as_slice()) {
        Entered::Quit
    } else if inner.len() == 0 {
        Entered::Nothing
    } else {
        Entered::Query
    }
}

/// The names as they are offered for picking.
pub fn offer(names: &Vec<String>) -> (items: Vec<String>)
    ensures
        items.deep_view() == offered(names.deep_view()),
{
    let ghost all = offered(names.deep_view());
    let mut items: Vec<String> = Vec::new();
    let mut i: usize = 0;
    while i < names.len()
        invariant
            i <= names.len(),
            all == offered(names.deep_view()),
            items.deep_view() == all.take(i as int),
        decreases names.len() - i,
    {
        let ghost before = items.deep_view();
        assert(names.deep_view()[i as int] == names@[i as int]@);
        items.push(display_name(names[i].as_str()));
        assert(items.deep_view() =~= before.push(all[i as int]));
        assert(all.take(i + 1) =~= all.take(i as int).push(all[i as int]));
        i = i + 1;
    }
    assert(all.take(all.len() as int) =~= all);
    items
}

/// The step of the dialogue: the next state, and what to do before asking
/// again.
pub fn step(state: SearchState, event: SearchEvent) -> (r: (SearchState, SearchEffect))
    ensures
        (r.0@, r.1@) == stepped(state@, event@),
{
    match state {
        SearchState::AwaitingInput => match event {
            SearchEvent::Typed { input } => match classify(input.as_str()) {
                Entered::Quit => (SearchState::Finished, SearchEffect::Nothing),
                Entered::Nothing => (SearchState::AwaitingInput, SearchEffect::Nothing),
                Entered::Query => (
                    SearchState::AwaitingResults { query: input },
                    SearchEffect::Nothing,
                ),
            },
            _ => (SearchState::AwaitingInput, SearchEffect::Nothing),
        },
        SearchState::AwaitingResults { query } => match event {
            SearchEvent::Found { names } => {
                if names.len() == 0 {
                    (SearchState::AwaitingInput, SearchEffect::SayNoneFound)
                } else {
                    let items = offer(&names);
                    (
                        SearchState::AwaitingChoice { items },
                        SearchEffect::SayFound { count: names.len() },
                    )
                }
            },
            _ => (SearchState::AwaitingResults { query }, SearchEffect::Nothing),
        },
        SearchState::AwaitingChoice { items } => match event {
            SearchEvent::Chose { place } => match place {
                Some(at) => {
                    if at < items.len() {
                        assert(items.deep_view()[at as int] == items@[at as int]@);
                        let name = items[at].clone();
                        let shown = items[at].clone();
                        (
                            SearchState::AwaitingAnswer { name },
                            SearchEffect::Preview { name: shown },
                        )
                    } else {
                        (SearchState::AwaitingInput, SearchEffect::Nothing)
                    }
                },
                None => (SearchState::AwaitingInput, SearchEffect::Nothing),
            },
            _ => (SearchState::AwaitingChoice { items }, SearchEffect::Nothing),
        },
        SearchState::AwaitingAnswer { name } => match event {
            SearchEvent::Answered { download } => {
                if download {
                    (SearchState::AwaitingInput, SearchEffect::Download { name })
                } else {
                    (SearchState::AwaitingInput, SearchEffect::Nothing)
                }
            },
            _ => (SearchState::AwaitingAnswer { name }, SearchEffect::Nothing),
        },
        SearchState::Finished => (SearchState::Finished, SearchEffect::Nothing),
    }
}

} // verus!

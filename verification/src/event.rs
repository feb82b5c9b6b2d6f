//! What the tokenizer finds in a script.

use crate::arg::ArgData;
use crate::arg::ArgModel;
use vstd::prelude::*;

verus! {

/// Something found in a script, with the number of its line.
#[derive(Clone, Debug, PartialEq)]
pub struct Event<'a> {
    pub data: EventData<'a>,
    pub position: usize,
}

/// What a line of a script declares.
#[derive(Clone, Debug, PartialEq)]
pub enum EventData<'a> {
    /// Description
    Describe(&'a str),
    /// Version info
    Version(&'a str),
    /// Author info
    Author(&'a str),
    /// A subcommand, e.g. `@cmd A sub command`
    Cmd(&'a str),
    /// An argument
    Arg(ArgData<'a>),
    /// A shell function, e.g. `function cmd()` or `cmd()`
    Func(&'a str),
    /// Placeholder for an unknown or invalid tag
    Unexpect(&'a str),
}

/// What an [`EventData`] says, over sequences of characters.
#[verifier::ext_equal]
pub enum DataModel {
    Describe(Seq<char>),
    Version(Seq<char>),
    Author(Seq<char>),
    Cmd(Seq<char>),
    Arg(ArgModel),
    Func(Seq<char>),
    Unexpect(Seq<char>),
}

/// What an [`Event`] says, over sequences of characters.
#[verifier::ext_equal]
pub struct EventModel {
    pub data: DataModel,
    pub position: nat,
}

impl<'a> View for EventData<'a> {
    type V = DataModel;

    open spec fn view(&self) -> DataModel {
        match self {
            EventData::Describe(text) => DataModel::Describe(text@),
            EventData::Version(text) => DataModel::Version(text@),
            EventData::Author(text) => DataModel::Author(text@),
            EventData::Cmd(text) => DataModel::Cmd(text@),
            EventData::Arg(arg) => DataModel::Arg(arg@),
            EventData::Func(name) => DataModel::Func(name@),
            EventData::Unexpect(name) => DataModel::Unexpect(name@),
        }
    }
}

impl<'a> View for Event<'a> {
    type V = EventModel;

    open spec fn view(&self) -> EventModel {
        EventModel { data: self.data@, position: self.position as nat }
    }
}

/// What an optional event says.
pub open spec fn opt_data(data: Option<EventData>) -> Option<DataModel> {
    match data {
        Some(d) => Some(d@),
        None => None,
    }
}

/// What a list of events says.
pub open spec fn event_models(events: Seq<Event>) -> Seq<EventModel> {
    Seq::new(events.len(), |i: int| events[i]@)
}

} // verus!

//! What the loading phase reports, and what a keystroke comes to.

use vstd::prelude::*;
use crate::importer::dictionary::{Dictionary, DictionaryModel};

verus! {

/// A notification of the loading phase.
pub enum AppEvent {
    LoadingStarted,
    DictionaryLoaded(Dictionary),
    LoadingFinished,
}

/// What a keystroke comes to.
#[derive(Debug, Clone, Copy, PartialEq, Eq, Structural)]
pub enum ProgressEvent {
    /// The keystroke did not match.
    Fail,
    /// The keystroke advanced, by the character that was typed.
    Success(Option<char>),
}

impl AppEvent {
    /// The text that announces the event.
    pub open spec fn label_text(self) -> Seq<char> {
        match self {
            AppEvent::LoadingStarted => "Loading Started"@,
            AppEvent::LoadingFinished => "Loading Finished"@,
            AppEvent::DictionaryLoaded(_) => "Dictionary Loaded"@,
        }
    }

    /// The text that announces the event.
    pub fn label(&self) -> (res: &'static str)
        ensures
            res@ == self.label_text(),
    {
        match self {
            AppEvent::LoadingStarted => "Loading Started",
            AppEvent::LoadingFinished => "Loading Finished",
            AppEvent::DictionaryLoaded(_) => "Dictionary Loaded",
        }
    }
}

impl ProgressEvent {
    /// The text that names the event.
    pub open spec fn label_text(self) -> Seq<char> {
        match self {
            ProgressEvent::Fail => "Failed"@,
            ProgressEvent::Success(_) => "Success"@,
        }
    }

    /// The text that names the event.
    pub fn label(&self) -> (res: &'static str)
        ensures
            res@ == self.label_text(),
    {
        match self {
            ProgressEvent::Fail => "Failed",
            ProgressEvent::Success(_) => "Success",
        }
    }
}

/// The loading phase as the main flow sees it: the dictionary once it has
/// arrived, and the time at which loading started, in milliseconds.
pub struct Loading {
    pub dict: Option<Dictionary>,
    pub load_time: i64,
}

/// What the loading phase holds, as plain values.
pub struct LoadingModel {
    pub dict: Option<DictionaryModel>,
    pub load_time: i64,
}

impl View for Loading {
    type V = LoadingModel;

    open spec fn view(&self) -> LoadingModel {
        LoadingModel {
            dict: match self.dict {
                Some(d) => Some(d@),
                None => None,
            },
            load_time: self.load_time,
        }
    }
}

impl LoadingModel {
    /// The loading phase after `event` arrived at time `now`: the start
    /// sets the clock reading, the dictionary is kept when it arrives, and
    /// the end changes nothing.
    pub open spec fn after(self, event: AppEvent, now: i64) -> LoadingModel {
        match event {
            AppEvent::LoadingStarted => LoadingModel { load_time: now, ..self },
            AppEvent::DictionaryLoaded(d) => LoadingModel { dict: Some(d@), ..self },
            AppEvent::LoadingFinished => self,
        }
    }
}

impl Loading {
    /// The loading phase before any notification.
    pub fn new() -> (res: Self)
        ensures
            res@ == (LoadingModel { dict: None, load_time: 0 }),
    {
        Loading { dict: None, load_time: 0 }
    }

    /// Takes in one notification that arrived at time `now`.
    pub fn receive(&mut self, event: AppEvent, now: i64)
        ensures
            final(self)@ == old(self)@.after(event, now),
    {
        match event {
            AppEvent::LoadingStarted => {
                self.load_time = now;
            },
            AppEvent::DictionaryLoaded(d) => {
                self.dict = Some(d);
            },
            AppEvent::LoadingFinished => {},
        }
    }

    /// Whether the interactive phase may begin: the dictionary has
    /// arrived.
    pub fn ready(&self) -> (res: bool)
        ensures
            res == self@.dict is Some,
    {
        self.dict.is_some()
    }

    /// The milliseconds that loading has taken at time `now`.
    pub fn millis_loading(&self, now: i64) -> (res: i64)
        requires
            i64::MIN <= now - self.load_time <= i64::MAX,
        ensures
            res == now - self.load_time,
    {
        now - self.load_time
    }
}

} // verus!

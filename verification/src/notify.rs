//! The notification channel: a single slot holding the most recent
//! operation outcome, shown in a message box. Replacing the slot is the
//! only write besides closing, and an attached action always closes the
//! box when invoked.

use vstd::prelude::*;

verus! {

/// What an attached notification action does when invoked. The retry
/// action re-issues the initial item fetch.
#[derive(Debug, Clone, Copy, PartialEq, Eq, Structural)]
pub enum NoteAction {
    RetryInit,
}

impl View for NoteAction {
    type V = NoteAction;

    open spec fn view(&self) -> NoteAction {
        *self
    }
}

impl DeepView for NoteAction {
    type V = NoteAction;

    open spec fn deep_view(&self) -> NoteAction {
        *self
    }
}

/// A notification: a title, a message, and optional labelled actions.
#[derive(Debug, PartialEq, Eq)]
pub struct MessageContainer {
    pub name: String,
    pub message: String,
    pub additional_actions: Option<Vec<(NoteAction, String)>>,
}

/// The mathematical image of a [`MessageContainer`].
pub ghost struct MessageContainerView {
    pub name: Seq<char>,
    pub message: Seq<char>,
    pub additional_actions: Option<Seq<(NoteAction, Seq<char>)>>,
}

impl View for MessageContainer {
    type V = MessageContainerView;

    open spec fn view(&self) -> MessageContainerView {
        MessageContainerView {
            name: self.name@,
            message: self.message@,
            additional_actions: match self.additional_actions {
                Some(v) => Some(v.deep_view()),
                None => None,
            },
        }
    }
}

/// The view of a plain notification with the given title and message and
/// no actions.
pub open spec fn plain_note(name: Seq<char>, message: Seq<char>) -> MessageContainerView {
    MessageContainerView { name, message, additional_actions: None }
}

/// The open box showing a plain notification with the given title and
/// message.
pub open spec fn shown_note(name: Seq<char>, message: Seq<char>) -> MessageBoxView {
    MessageBoxView { box_open: true, name, message, additional_actions: None }
}

/// The success notification for an operation summary.
pub fn success_message(msg: String) -> (r: MessageContainer)
    ensures
        r@ == plain_note("Success"@, msg@),
{
    MessageContainer { name: String::from_str("Success"), message: msg, additional_actions: None }
}

/// The failure notification for an error description.
pub fn error_message(msg: String) -> (r: MessageContainer)
    ensures
        r@ == plain_note("Error"@, msg@),
{
    MessageContainer { name: String::from_str("Error"), message: msg, additional_actions: None }
}

/// The message box: the visible face of the notification slot. Its
/// content is the latest notification; `box_open` is its visibility.
#[derive(Debug, PartialEq, Eq)]
pub struct MessageBox {
    pub box_open: bool,
    pub name: String,
    pub message: String,
    pub additional_actions: Option<Vec<(NoteAction, String)>>,
}

/// The mathematical image of a [`MessageBox`].
pub ghost struct MessageBoxView {
    pub box_open: bool,
    pub name: Seq<char>,
    pub message: Seq<char>,
    pub additional_actions: Option<Seq<(NoteAction, Seq<char>)>>,
}

impl View for MessageBox {
    type V = MessageBoxView;

    open spec fn view(&self) -> MessageBoxView {
        MessageBoxView {
            box_open: self.box_open,
            name: self.name@,
            message: self.message@,
            additional_actions: match self.additional_actions {
                Some(v) => Some(v.deep_view()),
                None => None,
            },
        }
    }
}

/// The box a container's current value opens with: closed and empty for
/// the untouched slot (an empty title), else open on the slot's content.
pub open spec fn box_of_container(c: MessageContainerView) -> MessageBoxView {
    if c.name.len() == 0 {
        MessageBoxView {
            box_open: false,
            name: Seq::empty(),
            message: Seq::empty(),
            additional_actions: None,
        }
    } else {
        MessageBoxView {
            box_open: true,
            name: c.name,
            message: c.message,
            additional_actions: c.additional_actions,
        }
    }
}

impl MessageBox {
    /// A box initialized from the slot's current content: closed when the
    /// slot was never written (its title is empty), open on it otherwise.
    pub fn new(container: MessageContainer) -> (r: Self)
        ensures
            r@ == box_of_container(container@),
    {
        if container.name.as_str().is_empty() {
            MessageBox {
                box_open: false,
                name: String::new(),
                message: String::new(),
                additional_actions: None,
            }
        } else {
            MessageBox {
                box_open: true,
                name: container.name,
                message: container.message,
                additional_actions: container.additional_actions,
            }
        }
    }

    /// Replaces the slot with the latest notification: most recent wins,
    /// and the box opens on it.
    pub fn show(&mut self, m: MessageContainer)
        ensures
            final(self)@.box_open,
            final(self)@.name == m@.name,
            final(self)@.message == m@.message,
            final(self)@.additional_actions == m@.additional_actions,
    {
        self.box_open = true;
        self.name = m.name;
        self.message = m.message;
        self.additional_actions = m.additional_actions;
    }

    /// Closes the box. Only visibility changes; the content of the slot
    /// is retained.
    pub fn close(&mut self)
        ensures
            !final(self)@.box_open,
            final(self)@.name == old(self)@.name,
            final(self)@.message == old(self)@.message,
            final(self)@.additional_actions == old(self)@.additional_actions,
    {
        self.box_open = false;
    }

    /// Invokes the attached action at position `k`: hands its effect back
    /// to the caller and closes the box — running the effect and closing
    /// are coupled by design. Without such an action nothing happens.
    pub fn invoke(&mut self, k: usize) -> (r: Option<NoteAction>)
        ensures
            match r {
                Some(a) => {
                    &&& old(self)@.additional_actions is Some
                    &&& (k as int) < old(self)@.additional_actions->0.len()
                    &&& a == old(self)@.additional_actions->0[k as int].0
                    &&& !final(self)@.box_open
                    &&& final(self)@.name == old(self)@.name
                    &&& final(self)@.message == old(self)@.message
                    &&& final(self)@.additional_actions == old(self)@.additional_actions
                },
                None => {
                    &&& *final(self) == *old(self)
                    &&& (old(self)@.additional_actions is Some ==> old(
                        self,
                    )@.additional_actions->0.len() <= k as int)
                },
            },
{
        match &self.additional_actions {
            Some(actions) => {
                if k < actions.len() {
                    let a = actions[k].0;
                    self.box_open = false;
                    Some(a)
                } else {
                    None
                }
            },
            None => None,
        }
    }
}

} // verus!

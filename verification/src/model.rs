//! Key-mapped dialog model: nodes addressed by an integer state id.
//!
//! A [`DialogNode`] holds a speaker (`source`), a [`Content`] (either a list
//! of [`Choice`]s or a monologue with an exit state), and the names of the
//! events triggered when the node is exited.  A [`Condition`] gates a choice
//! by an inclusive karma range and by a list of required event names.

use vstd::prelude::*;

use crate::strutil::vec_contains_string;

verus! {

/// Spec: every required name occurs in the active set.
pub open spec fn all_events_present(required: Seq<Seq<char>>, active: Seq<Seq<char>>) -> bool {
    forall|i: int| 0 <= i < required.len() ==> active.contains(#[trigger] required[i])
}

/// Spec: the karma value lies in the inclusive threshold range; a `None`
/// threshold constrains nothing.
pub open spec fn karma_in_threshold(karma: i32, threshold: Option<(i32, i32)>) -> bool {
    match threshold {
        None => true,
        Some((low, high)) => low <= karma && karma <= high,
    }
}

/// Spec: the whole condition holds for the supplied karma and active events.
///
/// The karma side with a `None` supplied value is satisfied only by a `None`
/// threshold; a supplied value must lie in the threshold range.  The event
/// side asks every required event to be active.
pub open spec fn condition_holds(
    threshold: Option<(i32, i32)>,
    required: Seq<Seq<char>>,
    karma: Option<i32>,
    active: Seq<Seq<char>>,
) -> bool {
    &&& match karma {
        None => threshold is None,
        Some(k) => karma_in_threshold(k, threshold),
    }
    &&& all_events_present(required, active)
}

/// A gate on a [`Choice`]: an optional inclusive karma range and a list of
/// event names that must all be active.
#[derive(Clone, Debug, PartialEq, Eq, Hash)]
pub struct Condition {
    /// Names of the events that must all be active for the condition to hold.
    pub events: Vec<String>,
    /// Inclusive `(min, max)` karma range; `None` constrains nothing.
    pub karma_threshold: Option<(i32, i32)>,
}

impl Condition {
    /// Constructs a new `Condition` with the given `karma_threshold` and `events`.
    pub fn new(karma_threshold: Option<(i32, i32)>, events: Vec<String>) -> (r: Condition)
        ensures
            r.karma_threshold == karma_threshold,
            r.events == events,
    {
        Condition { karma_threshold, events }
    }

    /// True when the given `karma` lies in the condition's threshold range.
    pub fn is_karma_verified(&self, karma: i32) -> (r: bool)
        ensures
            r == karma_in_threshold(karma, self.karma_threshold),
    {
        match self.karma_threshold {
            None => true,
            Some(karma_threshold) => karma >= karma_threshold.0 && karma <= karma_threshold.1,
        }
    }

    /// True when every event of the condition occurs in `active_events`.
    pub fn is_events_verified(&self, active_events: Vec<String>) -> (r: bool)
        ensures
            r == all_events_present(self.events.deep_view(), active_events.deep_view()),
    {
        let mut all_contained = true;
        let mut i: usize = 0;
        while i < self.events.len() && all_contained
            invariant
            0 <= i <= self.events.len(),
            all_contained ==> forall|j: int|
                0 <= j < i ==> active_events.deep_view().contains(
                    #[trigger] self.events.deep_view()[j],
                ),
            !all_contained ==> !all_events_present(
                self.events.deep_view(),
                active_events.deep_view(),
            ),
            decreases self.events.len() - i,
        {
            if !vec_contains_string(&active_events, &self.events[i]) {
                assert(!active_events.deep_view().contains(self.events.deep_view()[i as int]));
                all_contained = false;
            }
            i += 1;
        }
        all_contained
    }

    /// True when the condition holds for the supplied `karma` and `active_events`.
    ///
    /// A `None` karma satisfies only a `None` threshold; a `Some` karma must
    /// lie in the range.  Every event of the condition must be active.
    pub fn is_verified(&self, karma: Option<i32>, active_events: Vec<String>) -> (r: bool)
        ensures
            r == condition_holds(
                self.karma_threshold,
                self.events.deep_view(),
                karma,
                active_events.deep_view(),
            ),
    {
        let karma_verified = match karma {
            None => self.karma_threshold.is_none(),
            Some(karma) => self.is_karma_verified(karma),
        };
        let events_verified = self.is_events_verified(active_events);

        karma_verified && events_verified
    }

    /// Returns the read-only `karma_threshold` item of the `Condition`.
    pub fn karma_threshold(&self) -> (r: &Option<(i32, i32)>)
        ensures
            r == self.karma_threshold,
    {
        &self.karma_threshold
    }

    /// Returns the mutable reference `karma_threshold` item of the `Condition`.
    pub fn karma_threshold_mut(&mut self) -> (r: &mut Option<(i32, i32)>)
        ensures
            *r == old(self).karma_threshold,
            final(self).karma_threshold == *final(r),
            final(self).events == old(self).events,
    {
        &mut self.karma_threshold
    }

    /// Returns the read-only `events` item of the `Condition`.
    pub fn events(&self) -> (r: &Vec<String>)
        ensures
            r == self.events,
    {
        &self.events
    }

    /// Returns the `events` item of the `Condition`.
    pub fn events_mut(&mut self) -> (r: &Vec<String>)
        ensures
            r == old(self).events,
            *final(self) == *old(self),
    {
        &mut self.events
    }
}

/// A selectable line of dialog: a `text`, an optional [`Condition`] gate and
/// the `exit_state` naming the node reached by selecting it.
#[derive(Clone, Debug, PartialEq, Eq, Hash)]
pub struct Choice {
    /// The displayed line.
    pub text: String,
    /// The optional gate on the choice.
    pub condition: Option<Condition>,
    /// The state id of the continuation; an id absent from the map marks an end.
    pub exit_state: usize,
}

impl Choice {
    /// Constructs a new `Choice` with the given `text`, `condition` and `exit_state`.
    pub fn new(text: String, condition: Option<Condition>, exit_state: usize) -> (r: Self)
        ensures
            r.text == text,
            r.condition == condition,
            r.exit_state == exit_state,
    {
        Choice { text, condition, exit_state }
    }

    /// True when the choice's condition is verified for the given `karma` and
    /// `active_events`; a choice without a condition is always selectable.
    pub fn is_verified(&self, karma: Option<i32>, active_events: Vec<String>) -> (r: bool)
        ensures
            r == match self.condition {
                None => true,
                Some(c) => condition_holds(
                    c.karma_threshold,
                    c.events.deep_view(),
                    karma,
                    active_events.deep_view(),
                ),
            },
    {
        match &self.condition {
            None => true,
            Some(condition) => condition.is_verified(karma, active_events),
        }
    }

    /// Returns the read-only `text` of the choice.
    pub fn text(&self) -> (r: &String)
        ensures
            r == self.text,
    {
        &self.text
    }

    /// Returns the mutable `text` of the choice.
    pub fn text_mut(&mut self) -> (r: &mut String)
        ensures
            *r == old(self).text,
            final(self).text == *final(r),
            final(self).condition == old(self).condition,
            final(self).exit_state == old(self).exit_state,
    {
        &mut self.text
    }

    /// Returns the read-only `condition` of the choice.
    pub fn condition(&self) -> (r: &Option<Condition>)
        ensures
            r == self.condition,
    {
        &self.condition
    }

    /// Returns the mutable `condition` of the choice.
    pub fn condition_mut(&mut self) -> (r: &mut Option<Condition>)
        ensures
            *r == old(self).condition,
            final(self).condition == *final(r),
            final(self).text == old(self).text,
            final(self).exit_state == old(self).exit_state,
    {
        &mut self.condition
    }

    /// Returns the read-only `exit_state` of the choice.
    pub fn exit_state(&self) -> (r: &usize)
        ensures
            r == self.exit_state,
    {
        &self.exit_state
    }

    /// Returns the mutable `exit_state` of the choice.
    pub fn exit_state_mut(&mut self) -> (r: &mut usize)
        ensures
            *r == old(self).exit_state,
            final(self).exit_state == *final(r),
            final(self).text == old(self).text,
            final(self).condition == old(self).condition,
    {
        &mut self.exit_state
    }
}

/// A node's content: either a list of choices or a monologue.
#[derive(Clone, Debug, PartialEq, Eq, Hash)]
pub enum Content {
    /// A vector of selectable choices.
    Choices(Vec<Choice>),
    /// A text block: a vector of text lines and the exit state reached after
    /// the last line.
    Monolog {
        /// The vector of text lines.
        text: Vec<String>,
        /// The state id of the continuation.
        exit_state: usize,
    },
}

impl Default for Content {
    /// The default content: an empty monologue with exit state 0.
    fn default() -> (r: Self)
        ensures
            r matches Content::Monolog { text, exit_state } && text@.len() == 0 && exit_state
                == 0,
    {
        Content::Monolog { text: Vec::new(), exit_state: 0 }
    }
}

/// One beat of dialog under a unique integer key: a speaker, a [`Content`]
/// and the events triggered when the node is exited.
#[derive(Clone, Debug, PartialEq, Eq, Hash)]
pub struct DialogNode {
    /// Display name of the speaker.
    pub source: String,
    /// The node's choices or monologue.
    pub content: Content,
    /// Names of the events fired when this node is exited.
    pub trigger_event: Vec<String>,
}

impl DialogNode {
    /// Constructs a new `DialogNode` with the given `source`, `content` and
    /// `trigger_event` vector.
    pub fn new(source: String, content: Content, trigger_event: Vec<String>) -> (r: Self)
        ensures
            r.source == source,
            r.content == content,
            r.trigger_event == trigger_event,
    {
        DialogNode { source, content, trigger_event }
    }

    /// Gives the read-only author of the node.
    pub fn source(&self) -> (r: &String)
        ensures
            r == self.source,
    {
        &self.source
    }

    /// Gives the mutable author of the node.
    pub fn source_mut(&mut self) -> (r: &mut String)
        ensures
            *r == old(self).source,
            final(self).source == *final(r),
            final(self).content == old(self).content,
            final(self).trigger_event == old(self).trigger_event,
    {
        &mut self.source
    }

    /// Gives the read-only `content` of the node.
    pub fn content(&self) -> (r: &Content)
        ensures
            r == self.content,
    {
        &self.content
    }

    /// Gives the mutable `content` of the node.
    pub fn content_mut(&mut self) -> (r: &mut Content)
        ensures
            *r == old(self).content,
            final(self).content == *final(r),
            final(self).source == old(self).source,
            final(self).trigger_event == old(self).trigger_event,
    {
        &mut self.content
    }

    /// Gives the read-only `trigger_event` of the node.
    pub fn trigger_event(&self) -> (r: &Vec<String>)
        ensures
            r == self.trigger_event,
    {
        &self.trigger_event
    }

    /// Gives the mutable `trigger_event` of the node.
    pub fn trigger_event_mut(&mut self) -> (r: &mut Vec<String>)
        ensures
            *r == old(self).trigger_event,
            final(self).trigger_event == *final(r),
            final(self).source == old(self).source,
            final(self).content == old(self).content,
    {
        &mut self.trigger_event
    }
}

} // verus!

//! The dialog-tree data model: tree nodes held in an arena, choice
//! conditions, the parser configuration, and the parse error type.
//!
//! A [`DialogTree`] owns its nodes in a vector; a node names its children by
//! index.  Well-formedness ([`tree_wf`]) asks every child index to point past
//! its parent and into the vector, so the structure is a forest growing
//! towards higher indices, with the root at index 0.

use vstd::prelude::*;

use crate::model::all_events_present;
use crate::strutil::vec_contains_string;

verus! {

/// View of a [`DialogCondition`].
#[verifier::ext_equal]
pub ghost struct CondV {
    /// Inclusive `(min, max)` karma range; `None` constrains nothing.
    pub karma_threshold: Option<(i32, i32)>,
    /// Names of the events that must all be active; `None` constrains nothing.
    pub event: Option<Seq<Seq<char>>>,
}

/// View of a [`DialogContent`].
#[verifier::ext_equal]
pub ghost enum ContentV {
    /// A monologue line.
    Text(Seq<char>),
    /// A selectable line with an optional gate.
    Choice { text: Seq<char>, condition: Option<CondV> },
}

/// View of a [`DialogNode`].
#[verifier::ext_equal]
pub ghost struct NodeV {
    /// The node's lines, all text or all choices.
    pub content: Seq<ContentV>,
    /// Display name of the speaker; `None` is the narrator.
    pub author: Option<Seq<char>>,
    /// Arena indices of the children, in order.
    pub children: Seq<usize>,
    /// Arena index of the parent; `None` at the root.
    pub parent: Option<usize>,
    /// Names of the events fired when the node is exited.
    pub trigger_event: Seq<Seq<char>>,
}

/// View of a [`DialogCustomInfos`].
#[verifier::ext_equal]
pub ghost struct InfosV {
    /// Event names accepted inside conditions.
    pub world_event: Seq<Seq<char>>,
    /// Karma bounds substituted for the `MIN` and `MAX` keywords.
    pub karma_limits: Option<(i32, i32)>,
    /// Event names accepted after `->`.
    pub trigger_event: Seq<Seq<char>>,
}

/// View of a [`ParseError`].
pub ghost enum ErrV {
    /// A karma bound that is not a decimal `i32` nor `MAX`/`MIN`.
    MalformedKarma(Seq<char>),
    /// A header depth that asks to ascend above the root.
    AscendPastRoot,
    /// Source text not ended by a newline.
    MissingFinalNewline,
}

/// A gate on a dialog choice: an optional inclusive karma range and an
/// optional list of event names that must all be active.
#[derive(Clone, Debug, PartialEq, Eq)]
pub struct DialogCondition {
    /// Inclusive `(min, max)` karma range; `None` constrains nothing.
    pub karma_threshold: Option<(i32, i32)>,
    /// Names of the events that must all be active; `None` constrains nothing.
    pub event: Option<Vec<String>>,
}

impl View for DialogCondition {
    type V = CondV;

    open spec fn view(&self) -> CondV {
        CondV { karma_threshold: self.karma_threshold, event: self.event.deep_view() }
    }
}

impl DeepView for DialogCondition {
    type V = CondV;

    open spec fn deep_view(&self) -> CondV {
        self.view()
    }
}

/// Spec: the condition holds for the supplied karma and active events.
///
/// The karma side with a `None` supplied value is satisfied only by a `None`
/// threshold; a `Some` value must lie in the threshold range.  A `Some` event
/// constraint asks for a `Some` active set containing every required name; a
/// `None` constraint accepts any active set.
pub open spec fn cond_holds(
    c: CondV,
    karma: Option<i32>,
    active: Option<Seq<Seq<char>>>,
) -> bool {
    &&& match karma {
        None => c.karma_threshold is None,
        Some(k) => crate::model::karma_in_threshold(k, c.karma_threshold),
    }
    &&& match c.event {
        None => true,
        Some(required) => match active {
            None => false,
            Some(a) => all_events_present(required, a),
        },
    }
}

impl DialogCondition {
    /// Constructs a new `DialogCondition` with the given `karma_threshold`
    /// and `event` list.
    pub fn new(karma_threshold: Option<(i32, i32)>, event: Option<Vec<String>>) -> (r:
        DialogCondition)
        ensures
            r.karma_threshold == karma_threshold,
            r.event == event,
    {
        DialogCondition { karma_threshold, event }
    }

    /// True when the condition holds for the given `karma` and `active_events`.
    pub fn is_verified(&self, karma: Option<i32>, active_events: Option<&Vec<String>>) -> (r:
        bool)
        ensures
            r == cond_holds(
                self@,
                karma,
                match active_events {
                    None => None::<Seq<Seq<char>>>,
                    Some(a) => Some(a.deep_view()),
                },
            ),
    {
        let karma_verified = match karma {
            None => self.karma_threshold.is_none(),
            Some(k) => match self.karma_threshold {
                None => true,
                Some(t) => k >= t.0 && k <= t.1,
            },
        };
        let events_verified = match &self.event {
            None => true,
            Some(required) => match active_events {
                None => false,
                Some(active) => {
                    let mut all_contained = true;
                    let mut i: usize = 0;
                    while i < required.len()
                        invariant
                            0 <= i <= required.len(),
                            all_contained == (forall|j: int|
                                0 <= j < i ==> active.deep_view().contains(
                                    #[trigger] required.deep_view()[j],
                                )),
                        decreases required.len() - i,
                    {
                        if !vec_contains_string(active, &required[i]) {
                            assert(!active.deep_view().contains(required.deep_view()[i as int]));
                            all_contained = false;
                        }
                        i += 1;
                    }
                    all_contained
                },
            },
        };
        karma_verified && events_verified
    }

    /// Returns the read-only `karma_threshold` of the condition.
    pub fn karma_threshold(&self) -> (r: &Option<(i32, i32)>)
        ensures
            r == self.karma_threshold,
    {
        &self.karma_threshold
    }

    /// Returns the mutable `karma_threshold` of the condition.
    pub fn karma_threshold_mut(&mut self) -> (r: &mut Option<(i32, i32)>)
        ensures
            *r == old(self).karma_threshold,
            final(self).karma_threshold == *final(r),
            final(self).event == old(self).event,
    {
        &mut self.karma_threshold
    }

    /// Returns the read-only `event` list of the condition.
    pub fn event(&self) -> (r: &Option<Vec<String>>)
        ensures
            r == self.event,
    {
        &self.event
    }

    /// Returns the mutable `event` list of the condition.
    pub fn event_mut(&mut self) -> (r: &mut Option<Vec<String>>)
        ensures
            *r == old(self).event,
            final(self).event == *final(r),
            final(self).karma_threshold == old(self).karma_threshold,
    {
        &mut self.event
    }
}

/// One line of a node: a monologue line or a gated choice.
#[derive(Clone, Debug, PartialEq, Eq)]
pub enum DialogContent {
    /// A monologue line.
    Text(String),
    /// A selectable line with an optional gate.
    Choice {
        /// The displayed line.
        text: String,
        /// The optional gate on the choice.
        condition: Option<DialogCondition>,
    },
}

impl View for DialogContent {
    type V = ContentV;

    open spec fn view(&self) -> ContentV {
        match self {
            DialogContent::Text(t) => ContentV::Text(t@),
            DialogContent::Choice { text, condition } => ContentV::Choice {
                text: text@,
                condition: condition.deep_view(),
            },
        }
    }
}

impl DeepView for DialogContent {
    type V = ContentV;

    open spec fn deep_view(&self) -> ContentV {
        self.view()
    }
}

/// One beat of dialog: a speaker, ordered content lines, children by arena
/// index, a parent back-link and the events fired on exit.
#[derive(Clone, Debug, PartialEq, Eq)]
pub struct DialogNode {
    /// The node's lines, all text or all choices.
    pub content: Vec<DialogContent>,
    /// Display name of the speaker; `None` is the narrator.
    pub author: Option<String>,
    /// Arena indices of the children, in order.
    pub children: Vec<usize>,
    /// Arena index of the parent; `None` at the root.
    pub parent: Option<usize>,
    /// Names of the events fired when the node is exited.
    pub trigger_event: Vec<String>,
}

impl View for DialogNode {
    type V = NodeV;

    open spec fn view(&self) -> NodeV {
        NodeV {
            content: self.content.deep_view(),
            author: self.author.deep_view(),
            children: self.children@,
            parent: self.parent,
            trigger_event: self.trigger_event.deep_view(),
        }
    }
}

impl DeepView for DialogNode {
    type V = NodeV;

    open spec fn deep_view(&self) -> NodeV {
        self.view()
    }
}

/// Spec: the node's first line is a choice.
pub open spec fn spec_is_choice(content: Seq<ContentV>) -> bool {
    content.len() > 0 && content[0] is Choice
}

/// Spec: the node's first line is a text line.
pub open spec fn spec_is_text(content: Seq<ContentV>) -> bool {
    content.len() > 0 && content[0] is Text
}

impl DialogNode {
    /// Constructs a new `DialogNode` with the given `content`, `author`,
    /// `children`, `parent` and `trigger_event`.
    pub fn new(
        content: Vec<DialogContent>,
        author: Option<String>,
        children: Vec<usize>,
        parent: Option<usize>,
        trigger_event: Vec<String>,
    ) -> (r: DialogNode)
        ensures
            r.content == content,
            r.author == author,
            r.children == children,
            r.parent == parent,
            r.trigger_event == trigger_event,
    {
        DialogNode { content, author, children, parent, trigger_event }
    }

    /// Returns the read-only author of the node.
    pub fn author(&self) -> (r: &Option<String>)
        ensures
            r == self.author,
    {
        &self.author
    }

    /// Returns the read-only content of the node.
    pub fn content(&self) -> (r: &Vec<DialogContent>)
        ensures
            r == self.content,
    {
        &self.content
    }

    /// Returns the read-only child indices of the node.
    pub fn children(&self) -> (r: &Vec<usize>)
        ensures
            r == self.children,
    {
        &self.children
    }

    /// Returns the read-only parent index of the node.
    pub fn parent(&self) -> (r: &Option<usize>)
        ensures
            r == self.parent,
    {
        &self.parent
    }

    /// Returns the read-only trigger events of the node.
    pub fn trigger_event(&self) -> (r: &Vec<String>)
        ensures
            r == self.trigger_event,
    {
        &self.trigger_event
    }

    /// True when the node has no child.
    pub fn is_end_node(&self) -> (r: bool)
        ensures
            r == (self@.children.len() == 0),
    {
        self.children.is_empty()
    }

    /// True when the first content line is a choice; false on empty content.
    pub fn is_choice(&self) -> (r: bool)
        ensures
            r == spec_is_choice(self@.content),
    {
        if self.content.len() > 0 {
            match &self.content[0] {
                DialogContent::Choice { .. } => true,
                DialogContent::Text(..) => false,
            }
        } else {
            false
        }
    }

    /// True when the first content line is a text line; false on empty content.
    pub fn is_text(&self) -> (r: bool)
        ensures
            r == spec_is_text(self@.content),
    {
        if self.content.len() > 0 {
            match &self.content[0] {
                DialogContent::Text(..) => true,
                DialogContent::Choice { .. } => false,
            }
        } else {
            false
        }
    }
}

/// A node is never a choice node and a text node at once, and a node with
/// empty content is neither.
pub proof fn lemma_choice_text_exclusive(content: Seq<ContentV>)
    ensures
        !(spec_is_choice(content) && spec_is_text(content)),
        content.len() == 0 ==> !spec_is_choice(content) && !spec_is_text(content),
{
}

/// Spec: well-formedness of a node arena: at least a root, and every child
/// index points past its parent and into the arena.
pub open spec fn tree_wf(nodes: Seq<NodeV>) -> bool {
    &&& nodes.len() >= 1
    &&& forall|i: int, j: int|
        0 <= i < nodes.len() && 0 <= j < nodes[i].children.len() ==> i < (
        #[trigger] nodes[i].children[j]) < nodes.len()
}

/// A dialog tree: the nodes in an arena vector, the root at index 0.
#[derive(Clone, Debug, PartialEq, Eq)]
pub struct DialogTree {
    /// The nodes; a node names its children by index into this vector.
    pub nodes: Vec<DialogNode>,
}

impl View for DialogTree {
    type V = Seq<NodeV>;

    open spec fn view(&self) -> Seq<NodeV> {
        self.nodes.deep_view()
    }
}

/// Spec: the line is a choice whose gate is absent or holds.
pub open spec fn choice_line_selectable(
    line: ContentV,
    karma: Option<i32>,
    active: Option<Seq<Seq<char>>>,
) -> bool {
    line matches ContentV::Choice { condition, .. } && (condition matches Some(c)
        ==> cond_holds(c, karma, active))
}

/// Spec: the child node is offerable: a text or empty child is always
/// offerable, a choice child when one of its choice lines is selectable.
pub open spec fn spec_child_offerable(
    n: NodeV,
    karma: Option<i32>,
    active: Option<Seq<Seq<char>>>,
) -> bool {
    if spec_is_choice(n.content) {
        exists|k: int|
            0 <= k < n.content.len() && choice_line_selectable(
                #[trigger] n.content[k],
                karma,
                active,
            )
    } else {
        true
    }
}

/// Spec: node `idx` has at least one offerable child.
pub open spec fn spec_some_child_verified(
    nodes: Seq<NodeV>,
    idx: int,
    karma: Option<i32>,
    active: Option<Seq<Seq<char>>>,
) -> bool {
    exists|j: int|
        0 <= j < nodes[idx].children.len() && spec_child_offerable(
            nodes[(#[trigger] nodes[idx].children[j]) as int],
            karma,
            active,
        )
}

impl DialogTree {
    /// A tree of one root node; any children list of the argument is dropped
    /// so that the arena stays well formed.
    pub fn new(mut root: DialogNode) -> (r: DialogTree)
        ensures
            r.wf(),
            r@.len() == 1,
            r@[0].content == root@.content,
            r@[0].author == root@.author,
            r@[0].trigger_event == root@.trigger_event,
            r@[0].children.len() == 0,
            r@[0].parent is None,
    {
        root.children = Vec::new();
        root.parent = None;
        let mut nodes: Vec<DialogNode> = Vec::new();
        nodes.push(root);
        DialogTree { nodes }
    }

    /// Spec: the arena is well formed.
    pub open spec fn wf(&self) -> bool {
        tree_wf(self@)
    }

    /// The number of nodes of the tree.
    pub fn len(&self) -> (r: usize)
        ensures
            r == self@.len(),
    {
        self.nodes.len()
    }

    /// The node at arena index `i`.
    pub fn node_at(&self, i: usize) -> (r: &DialogNode)
        requires
            i < self@.len(),
        ensures
            r@ == self@[i as int],
    {
        &self.nodes[i]
    }

    /// The root node.
    pub fn root(&self) -> (r: &DialogNode)
        requires
            self.wf(),
        ensures
            r@ == self@[0],
    {
        &self.nodes[0]
    }

    /// Appends `node` as the last child of `parent` and returns its index.
    /// Any children list of the argument is dropped; its parent link is set.
    pub fn add_child(&mut self, parent: usize, node: DialogNode) -> (idx: usize)
        requires
            old(self).wf(),
            parent < old(self)@.len(),
        ensures
            final(self).wf(),
            idx == old(self)@.len(),
            final(self)@.len() == old(self)@.len() + 1,
            final(self)@[idx as int].content == node@.content,
            final(self)@[idx as int].author == node@.author,
            final(self)@[idx as int].trigger_event == node@.trigger_event,
            final(self)@[idx as int].children.len() == 0,
            final(self)@[idx as int].parent == Some(parent),
            final(self)@[parent as int].children == old(self)@[parent as int].children.push(idx),
            forall|i: int|
                0 <= i < old(self)@.len() && i != parent ==> final(self)@[i] == old(self)@[i],
            final(self)@[parent as int].content == old(self)@[parent as int].content,
            final(self)@[parent as int].author == old(self)@[parent as int].author,
            final(self)@[parent as int].parent == old(self)@[parent as int].parent,
            final(self)@[parent as int].trigger_event == old(self)@[parent as int].trigger_event,
    {
        let idx = self.nodes.len();
        let mut child = node;
        child.children = Vec::new();
        child.parent = Some(parent);
        self.nodes.push(child);
        let p = &mut self.nodes[parent];
        p.children.push(idx);
        proof {
            assert forall|i: int, j: int|
                0 <= i < self@.len() && 0 <= j < self@[i].children.len() implies i < (
            #[trigger] self@[i].children[j]) < self@.len() by {
                if i == parent as int && j == self@[i].children.len() - 1 {
                    assert(self@[i].children[j] == idx);
                } else {
                    assert(old(self)@[i].children[j] == self@[i].children[j]);
                }
            }
        }
        idx
    }

    /// True when some child of node `idx` is offerable under the given karma
    /// and active events: a text or empty child always, a choice child when
    /// one of its choices has no condition or a condition that holds.
    pub fn at_least_one_child_is_verified(
        &self,
        idx: usize,
        karma: Option<i32>,
        active_events: Option<&Vec<String>>,
    ) -> (r: bool)
        requires
            self.wf(),
            idx < self@.len(),
        ensures
            r == spec_some_child_verified(
                self@,
                idx as int,
                karma,
                match active_events {
                    None => None::<Seq<Seq<char>>>,
                    Some(a) => Some(a.deep_view()),
                },
            ),
    {
        let ghost active = match active_events {
            None => None::<Seq<Seq<char>>>,
            Some(a) => Some(a.deep_view()),
        };
        let n_children = self.nodes[idx].children.len();
        let mut j: usize = 0;
        while j < n_children
            invariant
                self.wf(),
                idx < self@.len(),
                n_children == self@[idx as int].children.len(),
                0 <= j <= n_children,
                active == match active_events {
                    None => None::<Seq<Seq<char>>>,
                    Some(a) => Some(a.deep_view()),
                },
                forall|t: int|
                    0 <= t < j ==> !spec_child_offerable(
                        self@[(#[trigger] self@[idx as int].children[t]) as int],
                        karma,
                        active,
                    ),
            decreases n_children - j,
        {
            let child_idx = self.nodes[idx].children[j];
            let child = &self.nodes[child_idx];
            if self.child_offerable(child_idx, karma, active_events) {
                assert(spec_child_offerable(self@[child_idx as int], karma, active));
                return true;
            }
            j += 1;
        }
        false
    }

    /// True when the node at `i` is offerable on its own: a text or empty
    /// node always, a choice node when one of its choices has no condition or
    /// a condition that holds.
    fn child_offerable(
        &self,
        i: usize,
        karma: Option<i32>,
        active_events: Option<&Vec<String>>,
    ) -> (r: bool)
        requires
            i < self@.len(),
        ensures
            r == spec_child_offerable(
                self@[i as int],
                karma,
                match active_events {
                    None => None::<Seq<Seq<char>>>,
                    Some(a) => Some(a.deep_view()),
                },
            ),
    {
        let ghost active = match active_events {
            None => None::<Seq<Seq<char>>>,
            Some(a) => Some(a.deep_view()),
        };
        let node = &self.nodes[i];
        if !node.is_choice() {
            return true;
        }
        let mut k: usize = 0;
        while k < node.content.len()
            invariant
                i < self@.len(),
                node == self.nodes@[i as int],
                node@ == self@[i as int],
                active == match active_events {
                    None => None::<Seq<Seq<char>>>,
                    Some(a) => Some(a.deep_view()),
                },
                0 <= k <= node.content.len(),
                spec_is_choice(self@[i as int].content),
                forall|t: int|
                    0 <= t < k ==> !choice_line_selectable(
                        #[trigger] node@.content[t],
                        karma,
                        active,
                    ),
            decreases node.content.len() - k,
        {
            match &node.content[k] {
                DialogContent::Text(..) => {},
                DialogContent::Choice { condition, .. } => {
                    match condition {
                        None => {
                            assert(choice_line_selectable(node@.content[k as int], karma, active));
                            return true;
                        },
                        Some(c) => {
                            if c.is_verified(karma, active_events) {
                                assert(choice_line_selectable(
                                    node@.content[k as int],
                                    karma,
                                    active,
                                ));
                                return true;
                            }
                        },
                    }
                },
            }
            k += 1;
        }
        false
    }
}

/// The textual dialog state of one interlocutor: the source text of the
/// current node, if any.
#[derive(Clone, Debug, PartialEq, Eq)]
pub struct Dialog {
    /// Source text of the current dialog node.
    pub current_node: Option<String>,
}

impl Dialog {
    /// A dialog whose current node is the given source text.
    pub fn new(text: &str) -> (r: Dialog)
        ensures
            r.current_node matches Some(t) && t@ == text@,
    {
        Dialog { current_node: Some(text.to_owned()) }
    }
}

/// The parser configuration: the legal world-event and trigger-event names
/// and the karma bounds substituted for `MAX`/`MIN`.
#[derive(Clone, Debug, PartialEq, Eq)]
pub struct DialogCustomInfos {
    /// Event names accepted inside conditions.
    pub world_event: Vec<String>,
    /// Karma bounds substituted for the `MIN` and `MAX` keywords.
    pub karma_limits: Option<(i32, i32)>,
    /// Event names accepted after `->`.
    pub trigger_event: Vec<String>,
}

impl View for DialogCustomInfos {
    type V = InfosV;

    open spec fn view(&self) -> InfosV {
        InfosV {
            world_event: self.world_event.deep_view(),
            karma_limits: self.karma_limits,
            trigger_event: self.trigger_event.deep_view(),
        }
    }
}

impl DialogCustomInfos {
    /// Constructs a new `DialogCustomInfos` from the legal world events, the
    /// karma bounds, and the legal trigger events.
    pub fn new(
        world_event: Vec<String>,
        karma_limits: Option<(i32, i32)>,
        trigger_event: Vec<String>,
    ) -> (r: DialogCustomInfos)
        ensures
            r.world_event == world_event,
            r.karma_limits == karma_limits,
            r.trigger_event == trigger_event,
    {
        DialogCustomInfos { world_event, karma_limits, trigger_event }
    }
}

/// Why a parse failed.
#[derive(Clone, Debug, PartialEq, Eq)]
pub enum ParseError {
    /// A karma bound that is not a decimal `i32` nor `MAX`/`MIN`.
    MalformedKarma {
        /// The offending bound text.
        token: String,
    },
    /// A header depth that asks to ascend above the root.
    AscendPastRoot,
    /// Source text not ended by a newline.
    MissingFinalNewline,
}

impl View for ParseError {
    type V = ErrV;

    open spec fn view(&self) -> ErrV {
        match self {
            ParseError::MalformedKarma { token } => ErrV::MalformedKarma(token@),
            ParseError::AscendPastRoot => ErrV::AscendPastRoot,
            ParseError::MissingFinalNewline => ErrV::MissingFinalNewline,
        }
    }
}

} // verus!

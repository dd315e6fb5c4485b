//! The grammar scanner: a character-driven state machine that reads dialog
//! source text and builds a [`DialogTree`].
//!
//! The machine is specified by [`scan_step`], the transition taken on one
//! character, folded over the text by [`scan_upto`]; [`init_tree_file`] is
//! verified to return exactly the tree of that fold ([`spec_parse`]).
//!
//! Grammar summary: `#` headers open a node (the `#` count is the depth), `-`
//! lines carry text or, after `|`, a condition (`k`/`karma` and `e`/`event`
//! clauses ended by `;`), `->` lines carry trigger events, and `/` escapes
//! the next structural character.  Text is trimmed of spaces; karma bounds
//! are ordered; `MAX`/`MIN` take the configured limits; event names absent
//! from the configured allow-lists are dropped.  The text must end with a
//! newline.  Differences from a permissive reading of the grammar, chosen
//! here and stated exactly by the spec: a karma clause not ended by `;`
//! contributes nothing, the condition sub-state is cleared when a choice
//! line is committed, a malformed karma bound or a header that would ascend
//! above the root is a [`ParseError`] instead of a panic, and a missing
//! final newline is a [`ParseError`] instead of a silently dropped token.

use vstd::prelude::*;

use crate::dialog::CondV;
use crate::dialog::ContentV;
use crate::dialog::DialogCondition;
use crate::dialog::DialogContent;
use crate::dialog::DialogCustomInfos;
use crate::dialog::DialogNode;
use crate::dialog::DialogTree;
use crate::dialog::ErrV;
use crate::dialog::InfosV;
use crate::dialog::NodeV;
use crate::dialog::ParseError;
use crate::numbers::int_string_val;
use crate::numbers::valid_i32_string;
use crate::strutil::strip_leading_spaces;
use crate::strutil::trim_spaces;
use crate::strutil::unicode_alphanumeric;

verus! {

/// Spec: the character is ASCII.
pub open spec fn is_ascii_char(c: char) -> bool {
    c < '\u{0080}'
}

/// Spec: the token is the `MAX` keyword (upper or lower case).
pub open spec fn is_max_keyword(tok: Seq<char>) -> bool {
    tok == seq!['M', 'A', 'X'] || tok == seq!['m', 'a', 'x']
}

/// Spec: the token is the `MIN` keyword (upper or lower case).
pub open spec fn is_min_keyword(tok: Seq<char>) -> bool {
    tok == seq!['M', 'I', 'N'] || tok == seq!['m', 'i', 'n']
}

/// Spec: the karma bound denoted by a token: the configured upper or lower
/// limit for `MAX`/`MIN`, else its value as a decimal `i32`; `None` when the
/// token is malformed or a keyword is used without configured limits.
pub open spec fn spec_karma_value(tok: Seq<char>, limits: Option<(i32, i32)>) -> Option<i32> {
    if is_max_keyword(tok) {
        match limits {
            Some(l) => Some(l.1),
            None => None,
        }
    } else if is_min_keyword(tok) {
        match limits {
            Some(l) => Some(l.0),
            None => None,
        }
    } else if valid_i32_string(tok) {
        Some(int_string_val(tok) as i32)
    } else {
        None
    }
}

/// Spec: the two karma bounds of a clause, swapped into ascending order.
pub open spec fn ordered_bounds(x: i32, k: i32) -> (i32, i32) {
    if x <= k {
        (x, k)
    } else {
        (k, x)
    }
}

/// Spec: the accumulated condition events after one event token: appended
/// when the allow-list holds the token, unchanged (and dropped) otherwise.
pub open spec fn spec_add_event(
    cur: Option<Seq<Seq<char>>>,
    tok: Seq<char>,
    allow: Seq<Seq<char>>,
) -> Option<Seq<Seq<char>>> {
    if allow.contains(tok) {
        match cur {
            Some(v) => Some(v.push(tok)),
            None => Some(seq![tok]),
        }
    } else {
        cur
    }
}

/// Spec: parent links climb towards lower indices.
pub open spec fn parents_wf(nodes: Seq<NodeV>) -> bool {
    forall|i: int|
        0 <= i < nodes.len() ==> ((#[trigger] nodes[i].parent) matches Some(p) ==> (p as int) < i)
}

/// Spec: the index reached after ascending `n` parent links from `cur`;
/// `None` when a link is missing on the way.
pub open spec fn spec_climb(nodes: Seq<NodeV>, cur: int, n: int) -> Option<int>
    decreases n,
{
    if n <= 0 {
        Some(cur)
    } else if 0 <= cur < nodes.len() {
        match nodes[cur].parent {
            None => None,
            Some(p) => spec_climb(nodes, p as int, n - 1),
        }
    } else {
        None
    }
}

/// Spec: a fresh node with nothing in it.
pub open spec fn empty_node() -> NodeV {
    NodeV {
        content: Seq::empty(),
        author: None,
        children: Seq::empty(),
        parent: None,
        trigger_event: Seq::empty(),
    }
}

/// The whole state of the scanner between two characters.
#[verifier::ext_equal]
pub ghost struct ScanState {
    /// The arena built so far.
    pub nodes: Seq<NodeV>,
    /// Index of the node under construction.
    pub current: int,
    /// Pending author name characters.
    pub author: Seq<char>,
    /// Pending text characters of the line.
    pub save: Seq<char>,
    /// Pending karma bound characters.
    pub karma: Seq<char>,
    /// Pending event name characters.
    pub event: Seq<char>,
    /// First bound of the karma clause under construction.
    pub karma_first: Option<i32>,
    /// Karma threshold accumulated for the pending choice.
    pub cond_karma: Option<(i32, i32)>,
    /// Events accumulated for the pending choice.
    pub cond_event: Option<Seq<Seq<char>>>,
    /// True once a `|` made the node under construction a choice node.
    pub choice_mode: bool,
    /// True right after the `/` escape character.
    pub except: bool,
    /// `#` count of the header being read.
    pub header_numbers: int,
    /// `#` count of the previous header.
    pub last_header_numbers: int,
    /// Reading a header line.
    pub author_phase: bool,
    /// Reading a content line.
    pub content_phase: bool,
    /// Reading a condition after `|`.
    pub condition_phase: bool,
    /// Reading a karma clause.
    pub karma_phase: bool,
    /// Reading an event clause.
    pub event_phase: bool,
    /// Between the clause keyword and its `:`.
    pub post_colon: bool,
    /// Reading a `->` trigger line.
    pub trigger_phase: bool,
}

/// Spec: the scanner state before any character.
pub open spec fn init_scan_state() -> ScanState {
    ScanState {
        nodes: seq![empty_node()],
        current: 0,
        author: Seq::empty(),
        save: Seq::empty(),
        karma: Seq::empty(),
        event: Seq::empty(),
        karma_first: None,
        cond_karma: None,
        cond_event: None,
        choice_mode: false,
        except: false,
        header_numbers: 0,
        last_header_numbers: 0,
        author_phase: false,
        content_phase: false,
        condition_phase: false,
        karma_phase: false,
        event_phase: false,
        post_colon: false,
        trigger_phase: false,
    }
}

/// Spec: commit a header line: ascend to the depth asked by the `#` count,
/// append a fresh node there (none for the very first header, which names
/// the root), and name its author.
pub open spec fn scan_commit_header(st: ScanState) -> Result<ScanState, ErrV> {
    let name = strip_leading_spaces(st.author);
    if st.last_header_numbers != 0 {
        let ascents = if st.last_header_numbers + 1 > st.header_numbers {
            st.last_header_numbers + 1 - st.header_numbers
        } else {
            0
        };
        match spec_climb(st.nodes, st.current, ascents) {
            None => Err(ErrV::AscendPastRoot),
            Some(p) => {
                let idx = st.nodes.len() as int;
                let parent_node = st.nodes[p];
                let linked = st.nodes.update(
                    p,
                    NodeV { children: parent_node.children.push(idx as usize), ..parent_node },
                );
                let child = NodeV {
                    author: Some(name),
                    parent: Some(p as usize),
                    ..empty_node()
                };
                Ok(
                    ScanState {
                        nodes: linked.push(child),
                        current: idx,
                        author: Seq::empty(),
                        last_header_numbers: st.header_numbers,
                        header_numbers: 0,
                        except: false,
                        author_phase: false,
                        ..st
                    },
                )
            },
        }
    } else {
        let cur = st.nodes[st.current];
        Ok(
            ScanState {
                nodes: st.nodes.update(st.current, NodeV { author: Some(name), ..cur }),
                author: Seq::empty(),
                last_header_numbers: st.header_numbers,
                header_numbers: 0,
                except: false,
                author_phase: false,
                ..st
            },
        )
    }
}

/// Spec: commit the pending choice line: trim its text, attach the
/// accumulated condition (none when both sides are empty), clear the
/// condition sub-state.
pub open spec fn scan_commit_choice(st: ScanState) -> Result<ScanState, ErrV> {
    let text = trim_spaces(st.save);
    let condition = if st.cond_karma is None && st.cond_event is None {
        None
    } else {
        Some(CondV { karma_threshold: st.cond_karma, event: st.cond_event })
    };
    let cur = st.nodes[st.current];
    let appended = NodeV {
        content: cur.content.push(ContentV::Choice { text, condition }),
        ..cur
    };
    Ok(
        ScanState {
            nodes: st.nodes.update(st.current, appended),
            save: Seq::empty(),
            condition_phase: false,
            cond_karma: None,
            cond_event: None,
            karma_first: None,
            karma_phase: false,
            event_phase: false,
            post_colon: false,
            karma: Seq::empty(),
            event: Seq::empty(),
            ..st
        },
    )
}

/// Spec: commit the pending text line, trimmed of spaces.
pub open spec fn scan_commit_text(st: ScanState) -> Result<ScanState, ErrV> {
    let text = trim_spaces(st.save);
    let cur = st.nodes[st.current];
    let appended = NodeV { content: cur.content.push(ContentV::Text(text)), ..cur };
    Ok(
        ScanState {
            nodes: st.nodes.update(st.current, appended),
            save: Seq::empty(),
            content_phase: false,
            ..st
        },
    )
}

/// Spec: commit one trigger-event token: appended to the current node when
/// the allow-list holds it, dropped otherwise; `\n` ends the trigger line.
pub open spec fn scan_commit_trigger(st: ScanState, c: char, infos: InfosV) -> Result<
    ScanState,
    ErrV,
> {
    let cur = st.nodes[st.current];
    let fired = if infos.trigger_event.contains(st.event) {
        cur.trigger_event.push(st.event)
    } else {
        cur.trigger_event
    };
    Ok(
        ScanState {
            nodes: st.nodes.update(st.current, NodeV { trigger_event: fired, ..cur }),
            event: Seq::empty(),
            trigger_phase: if c == '\n' {
                false
            } else {
                st.trigger_phase
            },
            ..st
        },
    )
}

/// Spec: the transition the scanner takes on one character.
pub open spec fn scan_step(st: ScanState, c: char, infos: InfosV) -> Result<ScanState, ErrV> {
    if c == '#' && !st.except {
        Ok(ScanState { header_numbers: st.header_numbers + 1, author_phase: true, ..st })
    } else if c == '-' && !st.condition_phase && !st.except {
        Ok(ScanState { content_phase: true, ..st })
    } else if c == '>' && st.content_phase && !st.except {
        Ok(ScanState { content_phase: false, trigger_phase: true, ..st })
    } else if c == '|' && st.content_phase && !st.except {
        Ok(
            ScanState {
                save: strip_leading_spaces(st.save),
                choice_mode: true,
                condition_phase: true,
                content_phase: false,
                ..st
            },
        )
    } else if c == ',' && st.karma_phase && st.condition_phase {
        match spec_karma_value(st.karma, infos.karma_limits) {
            None => Err(ErrV::MalformedKarma(st.karma)),
            Some(k) => Ok(ScanState { karma_first: Some(k), karma: Seq::empty(), ..st }),
        }
    } else if c == '\n' && st.author_phase {
        scan_commit_header(st)
    } else if c == ';' && st.karma_phase {
        match spec_karma_value(st.karma, infos.karma_limits) {
            None => Err(ErrV::MalformedKarma(st.karma)),
            Some(k) => {
                let bounds = match st.karma_first {
                    None => st.cond_karma,
                    Some(x) => Some(ordered_bounds(x, k)),
                };
                Ok(
                    ScanState {
                        cond_karma: bounds,
                        karma_first: None,
                        karma: Seq::empty(),
                        karma_phase: false,
                        ..st
                    },
                )
            },
        }
    } else if (c == ';' || c == ',') && st.event_phase {
        Ok(
            ScanState {
                cond_event: spec_add_event(st.cond_event, st.event, infos.world_event),
                event: Seq::empty(),
                event_phase: if c == ';' {
                    false
                } else {
                    st.event_phase
                },
                ..st
            },
        )
    } else if c == '\n' && st.condition_phase && st.choice_mode {
        scan_commit_choice(st)
    } else if c == '\n' && st.content_phase && st.save.len() > 0 && !st.choice_mode
        && !st.except {
        scan_commit_text(st)
    } else if (c == ',' || c == '\n') && st.trigger_phase {
        scan_commit_trigger(st, c, infos)
    } else if is_ascii_char(c) || unicode_alphanumeric(c) {
        if c == '/' {
            Ok(ScanState { except: true, ..st })
        } else if st.condition_phase {
            if c == 'k' && !st.event_phase {
                Ok(ScanState { karma_phase: true, post_colon: true, ..st })
            } else if c == 'e' && !st.event_phase {
                Ok(ScanState { event_phase: true, post_colon: true, ..st })
            } else if c == ':' && (st.event_phase || st.karma_phase) {
                Ok(ScanState { post_colon: false, ..st })
            } else if st.karma_phase && !st.post_colon && c != ' ' {
                Ok(ScanState { karma: st.karma.push(c), ..st })
            } else if st.event_phase && c != ' ' && !st.post_colon {
                Ok(ScanState { event: st.event.push(c), ..st })
            } else {
                Ok(st)
            }
        } else if st.trigger_phase && c != ' ' {
            Ok(ScanState { event: st.event.push(c), ..st })
        } else if c == '\n' && !st.except {
            Ok(ScanState { choice_mode: false, author_phase: false, content_phase: false, ..st })
        } else if st.author_phase && c != '#' {
            Ok(ScanState { author: st.author.push(c), ..st })
        } else {
            Ok(ScanState { save: st.save.push(c), except: false, ..st })
        }
    } else {
        Ok(st)
    }
}

/// Spec: the scanner state after the first `i` characters of `s`.
pub open spec fn scan_upto(s: Seq<char>, i: int, infos: InfosV) -> Result<ScanState, ErrV>
    decreases i,
{
    if i <= 0 {
        Ok(init_scan_state())
    } else {
        match scan_upto(s, i - 1, infos) {
            Err(e) => Err(e),
            Ok(st) => scan_step(st, s[i - 1], infos),
        }
    }
}

/// Spec: the arena that parsing the whole of `s` yields, or the error on
/// which the scanner stops.  Text not ended by a newline is refused.
pub open spec fn spec_parse(s: Seq<char>, infos: InfosV) -> Result<Seq<NodeV>, ErrV> {
    if s.len() == 0 || s.last() != '\n' {
        Err(ErrV::MissingFinalNewline)
    } else {
        match scan_upto(s, s.len() as int, infos) {
            Ok(st) => Ok(st.nodes),
            Err(e) => Err(e),
        }
    }
}

/// The karma bound denoted by a token, per [`spec_karma_value`].
fn karma_value(tok: &Vec<char>, limits: Option<(i32, i32)>) -> (r: Option<i32>)
    ensures
        r == spec_karma_value(tok@, limits),
{
    let upper_max = tok.len() == 3 && tok[0] == 'M' && tok[1] == 'A' && tok[2] == 'X';
    let lower_max = tok.len() == 3 && tok[0] == 'm' && tok[1] == 'a' && tok[2] == 'x';
    if upper_max || lower_max {
        proof {
            if upper_max {
                assert(tok@ =~= seq!['M', 'A', 'X']);
            } else {
                assert(tok@ =~= seq!['m', 'a', 'x']);
            }
        }
        return match limits {
            Some(l) => Some(l.1),
            None => None,
        };
    }
    let upper_min = tok.len() == 3 && tok[0] == 'M' && tok[1] == 'I' && tok[2] == 'N';
    let lower_min = tok.len() == 3 && tok[0] == 'm' && tok[1] == 'i' && tok[2] == 'n';
    proof {
        assert(!is_max_keyword(tok@)) by {
            if tok@ == seq!['M', 'A', 'X'] {
                assert(tok@.len() == 3 && tok@[0] == 'M' && tok@[1] == 'A' && tok@[2] == 'X');
            }
            if tok@ == seq!['m', 'a', 'x'] {
                assert(tok@.len() == 3 && tok@[0] == 'm' && tok@[1] == 'a' && tok@[2] == 'x');
            }
        }
    }
    if upper_min || lower_min {
        proof {
            if upper_min {
                assert(tok@ =~= seq!['M', 'I', 'N']);
            } else {
                assert(tok@ =~= seq!['m', 'i', 'n']);
            }
        }
        return match limits {
            Some(l) => Some(l.0),
            None => None,
        };
    }
    proof {
        assert(!is_min_keyword(tok@)) by {
            if tok@ == seq!['M', 'I', 'N'] {
                assert(tok@.len() == 3 && tok@[0] == 'M' && tok@[1] == 'I' && tok@[2] == 'N');
            }
            if tok@ == seq!['m', 'i', 'n'] {
                assert(tok@.len() == 3 && tok@[0] == 'm' && tok@[1] == 'i' && tok@[2] == 'n');
            }
        }
    }
    crate::numbers::parse_i32(tok)
}

/// The node index reached by ascending `n` parent links, per [`spec_climb`].
fn climb(tree: &DialogTree, start: usize, n: usize) -> (r: Option<usize>)
    requires
        parents_wf(tree@),
        (start as int) < tree@.len(),
    ensures
        match r {
            Some(p) => spec_climb(tree@, start as int, n as int) == Some(p as int) && (p as int)
                < tree@.len(),
            None => spec_climb(tree@, start as int, n as int) is None,
        },
{
    let mut cur = start;
    let mut k: usize = 0;
    while k < n
        invariant
            parents_wf(tree@),
            (cur as int) < tree@.len(),
            0 <= k <= n,
            spec_climb(tree@, start as int, n as int) == spec_climb(
                tree@,
                cur as int,
                (n - k) as int,
            ),
        decreases n - k,
    {
        match tree.nodes[cur].parent {
            None => {
                return None;
            },
            Some(p) => {
                assert(tree@[cur as int].parent == Some(p));
                cur = p;
            },
        }
        k += 1;
    }
    Some(cur)
}

/// Appends the token to the accumulated events when the allow-list holds
/// it, per [`spec_add_event`].
fn add_event(cur: &mut Option<Vec<String>>, tok: String, allow: &Vec<String>)
    ensures
        final(cur).deep_view() == spec_add_event(old(cur).deep_view(), tok@, allow.deep_view()),
{
    let ghost old_view = cur.deep_view();
    let ghost tok_view = tok@;
    if crate::strutil::vec_contains_string(allow, &tok) {
        match cur {
            Some(v) => {
                v.push(tok);
                proof {
                    assert(cur.deep_view() matches Some(s) && s =~~= old_view->Some_0.push(
                        tok_view,
                    ));
                }
            },
            None => {
                let mut fresh: Vec<String> = Vec::new();
                fresh.push(tok);
                *cur = Some(fresh);
                proof {
                    assert(cur.deep_view() matches Some(s) && s =~~= seq![tok_view]);
                }
            },
        }
    }
}

proof fn lemma_scan_upto_err(s: Seq<char>, i: int, j: int, infos: InfosV)
    requires
        0 <= i <= j,
        scan_upto(s, i, infos) is Err,
    ensures
        scan_upto(s, j, infos) == scan_upto(s, i, infos),
    decreases j - i,
{
    if j > i {
        lemma_scan_upto_err(s, i, j - 1, infos);
    }
}

proof fn lemma_update_keeps_wf(old_nodes: Seq<NodeV>, new_nodes: Seq<NodeV>)
    requires
        old_nodes.len() == new_nodes.len(),
        crate::dialog::tree_wf(old_nodes),
        parents_wf(old_nodes),
        forall|a: int|
            0 <= a < old_nodes.len() ==> (#[trigger] new_nodes[a]).children == old_nodes[a].children
                && new_nodes[a].parent == old_nodes[a].parent,
    ensures
        crate::dialog::tree_wf(new_nodes),
        parents_wf(new_nodes),
{
    assert forall|i: int, j: int|
        0 <= i < new_nodes.len() && 0 <= j < new_nodes[i].children.len() implies i < (
    #[trigger] new_nodes[i].children[j]) < new_nodes.len() by {
        assert(new_nodes[i].children == old_nodes[i].children);
        assert(old_nodes[i].children[j] == new_nodes[i].children[j]);
    }
}

proof fn lemma_append_child_wf(old_nodes: Seq<NodeV>, new_nodes: Seq<NodeV>, p: int, child: NodeV)
    requires
        crate::dialog::tree_wf(old_nodes),
        parents_wf(old_nodes),
        old_nodes.len() <= usize::MAX,
        0 <= p < old_nodes.len(),
        child.children.len() == 0,
        child.parent == Some(p as usize),
        new_nodes == old_nodes.update(
            p,
            NodeV {
                children: old_nodes[p].children.push(old_nodes.len() as usize),
                ..old_nodes[p]
            },
        ).push(child),
    ensures
        crate::dialog::tree_wf(new_nodes),
        parents_wf(new_nodes),
{
    let idx = old_nodes.len() as int;
    assert forall|i: int, j: int|
        0 <= i < new_nodes.len() && 0 <= j < new_nodes[i].children.len() implies i < (
    #[trigger] new_nodes[i].children[j]) < new_nodes.len() by {
        if i == idx {
            assert(new_nodes[i] == child);
        } else if i == p && j == new_nodes[i].children.len() - 1 {
            assert(new_nodes[i].children[j] == old_nodes.len() as usize);
        } else {
            assert(new_nodes[i].children[j] == old_nodes[i].children[j]);
        }
    }
    assert forall|i: int| 0 <= i < new_nodes.len() implies ((#[trigger] new_nodes[i].parent)
        matches Some(q) ==> (q as int) < i) by {
        if i == idx {
            assert(new_nodes[i] == child);
        } else {
            assert(new_nodes[i].parent == old_nodes[i].parent);
        }
    }
}

/// Parses dialog source text into a tree under the given configuration.
///
/// The result is stated exactly by [`spec_parse`]: on success the returned
/// arena is the one built by folding [`scan_step`] over the characters of
/// `s`; on failure the error is the one that fold stops on, or
/// [`ParseError::MissingFinalNewline`] when `s` does not end with a newline.
#[verifier::rlimit(100)]
pub fn init_tree_file(s: String, infos: DialogCustomInfos) -> (r: Result<DialogTree, ParseError>)
    ensures
        match r {
            Ok(tree) => spec_parse(s@, infos@) == Ok::<Seq<NodeV>, ErrV>(tree@) && tree.wf()
                && parents_wf(tree@),
            Err(e) => spec_parse(s@, infos@) == Err::<Seq<NodeV>, ErrV>(e@),
        },
{
    let chars = crate::strutil::str_chars(s.as_str());
    if chars.len() == 0 || chars[chars.len() - 1] != '\n' {
        return Err(ParseError::MissingFinalNewline);
    }
    let mut tree = DialogTree { nodes: Vec::new() };
    tree.nodes.push(
        DialogNode {
            content: Vec::new(),
            author: None,
            children: Vec::new(),
            parent: None,
            trigger_event: Vec::new(),
        },
    );
    let mut current: usize = 0;
    let mut author: Vec<char> = Vec::new();
    let mut save: Vec<char> = Vec::new();
    let mut karma: Vec<char> = Vec::new();
    let mut event: Vec<char> = Vec::new();
    let mut karma_first: Option<i32> = None;
    let mut cond_karma: Option<(i32, i32)> = None;
    let mut cond_event: Option<Vec<String>> = None;
    let mut choice_mode = false;
    let mut except = false;
    let mut header_numbers: usize = 0;
    let mut last_header_numbers: usize = 0;
    let mut author_phase = false;
    let mut content_phase = false;
    let mut condition_phase = false;
    let mut karma_phase = false;
    let mut event_phase = false;
    let mut post_colon = false;
    let mut trigger_phase = false;

    proof {
        assert(tree@ =~~= seq![empty_node()]);
    }

    let mut i: usize = 0;
    while i < chars.len()
        invariant
            chars@ == s@,
            chars@.len() > 0,
            chars@.last() == '\n',
            0 <= i <= chars@.len(),
            tree.wf(),
            parents_wf(tree@),
            (current as int) < tree@.len(),
            header_numbers <= i,
            last_header_numbers <= i,
            scan_upto(chars@, i as int, infos@) == Ok::<ScanState, ErrV>(
                ScanState {
                    nodes: tree@,
                    current: current as int,
                    author: author@,
                    save: save@,
                    karma: karma@,
                    event: event@,
                    karma_first,
                    cond_karma,
                    cond_event: cond_event.deep_view(),
                    choice_mode,
                    except,
                    header_numbers: header_numbers as int,
                    last_header_numbers: last_header_numbers as int,
                    author_phase,
                    content_phase,
                    condition_phase,
                    karma_phase,
                    event_phase,
                    post_colon,
                    trigger_phase,
                },
            ),
        decreases chars@.len() - i,
    {
        let ghost st = ScanState {
            nodes: tree@,
            current: current as int,
            author: author@,
            save: save@,
            karma: karma@,
            event: event@,
            karma_first,
            cond_karma,
            cond_event: cond_event.deep_view(),
            choice_mode,
            except,
            header_numbers: header_numbers as int,
            last_header_numbers: last_header_numbers as int,
            author_phase,
            content_phase,
            condition_phase,
            karma_phase,
            event_phase,
            post_colon,
            trigger_phase,
        };
        let c = chars[i];
        proof {
            assert(scan_upto(chars@, i + 1, infos@) == scan_step(st, chars@[i as int], infos@));
        }
        if c == '#' && !except {
            header_numbers += 1;
            author_phase = true;
        } else if c == '-' && !condition_phase && !except {
            content_phase = true;
        } else if c == '>' && content_phase && !except {
            content_phase = false;
            trigger_phase = true;
        } else if c == '|' && content_phase && !except {
            save = crate::strutil::strip_leading_spaces_vec(&save);
            choice_mode = true;
            condition_phase = true;
            content_phase = false;
        } else if c == ',' && karma_phase && condition_phase {
            match karma_value(&karma, infos.karma_limits) {
                None => {
                    let token = crate::strutil::chars_to_string(&karma);
                    let failure = ParseError::MalformedKarma { token };
                    proof {
                        assert(scan_upto(chars@, i + 1, infos@) == Err::<ScanState, ErrV>(
                            ErrV::MalformedKarma(karma@),
                        ));
                        lemma_scan_upto_err(chars@, i + 1, chars@.len() as int, infos@);
                    }
                    return Err(failure);
                },
                Some(k) => {
                    karma_first = Some(k);
                    karma = Vec::new();
                },
            }
        } else if c == '\n' && author_phase {
            let trimmed = crate::strutil::strip_leading_spaces_vec(&author);
            let name = crate::strutil::chars_to_string(&trimmed);
            if last_header_numbers != 0 {
                let ascents: usize = if last_header_numbers + 1 > header_numbers {
                    last_header_numbers + 1 - header_numbers
                } else {
                    0
                };
                match climb(&tree, current, ascents) {
                    None => {
                        proof {
                            assert(scan_upto(chars@, i + 1, infos@) == Err::<ScanState, ErrV>(
                                ErrV::AscendPastRoot,
                            ));
                            lemma_scan_upto_err(chars@, i + 1, chars@.len() as int, infos@);
                        }
                        return Err(ParseError::AscendPastRoot);
                    },
                    Some(p) => {
                        let idx = tree.nodes.len();
                        let child = DialogNode {
                            content: Vec::new(),
                            author: Some(name),
                            children: Vec::new(),
                            parent: Some(p),
                            trigger_event: Vec::new(),
                        };
                        let ghost child_view = child@;
                        tree.nodes.push(child);
                        let parent_node = &mut tree.nodes[p];
                        parent_node.children.push(idx);
                        current = idx;
                        proof {
                            let expected = st.nodes.update(
                                p as int,
                                NodeV {
                                    children: st.nodes[p as int].children.push(idx as usize),
                                    ..st.nodes[p as int]
                                },
                            ).push(child_view);
                            assert(tree@ =~~= expected);
                            lemma_append_child_wf(st.nodes, tree@, p as int, child_view);
                        }
                    },
                }
            } else {
                let node = &mut tree.nodes[current];
                node.author = Some(name);
                proof {
                    let expected = st.nodes.update(
                        current as int,
                        NodeV { author: Some(strip_leading_spaces(st.author)), ..st.nodes[
                            current as int] },
                    );
                    assert(tree@ =~~= expected);
                    assert forall|a: int|
                        0 <= a < st.nodes.len() implies (#[trigger] tree@[a]).children == st.nodes[
                        a].children && tree@[a].parent == st.nodes[a].parent by {}
                    lemma_update_keeps_wf(st.nodes, tree@);
                }
            }
            author = Vec::new();
            last_header_numbers = header_numbers;
            header_numbers = 0;
            except = false;
            author_phase = false;
        } else if c == ';' && karma_phase {
            match karma_value(&karma, infos.karma_limits) {
                None => {
                    let token = crate::strutil::chars_to_string(&karma);
                    let failure = ParseError::MalformedKarma { token };
                    proof {
                        assert(scan_upto(chars@, i + 1, infos@) == Err::<ScanState, ErrV>(
                            ErrV::MalformedKarma(karma@),
                        ));
                        lemma_scan_upto_err(chars@, i + 1, chars@.len() as int, infos@);
                    }
                    return Err(failure);
                },
                Some(k) => {
                    match karma_first {
                        None => {},
                        Some(x) => {
                            if x <= k {
                                cond_karma = Some((x, k));
                            } else {
                                cond_karma = Some((k, x));
                            }
                        },
                    }
                    karma_first = None;
                    karma = Vec::new();
                    karma_phase = false;
                },
            }
        } else if (c == ';' || c == ',') && event_phase {
            let token = crate::strutil::chars_to_string(&event);
            add_event(&mut cond_event, token, &infos.world_event);
            event = Vec::new();
            if c == ';' {
                event_phase = false;
            }
        } else if c == '\n' && condition_phase && choice_mode {
            let trimmed = crate::strutil::trim_spaces_vec(&save);
            let text = crate::strutil::chars_to_string(&trimmed);
            let accumulated = cond_event;
            cond_event = None;
            let condition = if cond_karma.is_none() && accumulated.is_none() {
                None
            } else {
                Some(DialogCondition { karma_threshold: cond_karma, event: accumulated })
            };
            let line = DialogContent::Choice { text, condition };
            let ghost line_view = line@;
            let node = &mut tree.nodes[current];
            node.content.push(line);
            save = Vec::new();
            condition_phase = false;
            cond_karma = None;
            karma_first = None;
            karma_phase = false;
            event_phase = false;
            post_colon = false;
            karma = Vec::new();
            event = Vec::new();
            proof {
                let expected = st.nodes.update(
                    current as int,
                    NodeV {
                        content: st.nodes[current as int].content.push(line_view),
                        ..st.nodes[current as int]
                    },
                );
                assert(tree@ =~~= expected);
                assert(line_view =~~= ContentV::Choice {
                    text: trim_spaces(st.save),
                    condition: if st.cond_karma is None && st.cond_event is None {
                        None
                    } else {
                        Some(CondV { karma_threshold: st.cond_karma, event: st.cond_event })
                    },
                });
                assert forall|a: int|
                    0 <= a < st.nodes.len() implies (#[trigger] tree@[a]).children == st.nodes[
                    a].children && tree@[a].parent == st.nodes[a].parent by {}
                lemma_update_keeps_wf(st.nodes, tree@);
            }
        } else if c == '\n' && content_phase && save.len() > 0 && !choice_mode && !except {
            let trimmed = crate::strutil::trim_spaces_vec(&save);
            let text = crate::strutil::chars_to_string(&trimmed);
            let line = DialogContent::Text(text);
            let ghost line_view = line@;
            let node = &mut tree.nodes[current];
            node.content.push(line);
            save = Vec::new();
            content_phase = false;
            proof {
                let expected = st.nodes.update(
                    current as int,
                    NodeV {
                        content: st.nodes[current as int].content.push(line_view),
                        ..st.nodes[current as int]
                    },
                );
                assert(tree@ =~~= expected);
                assert(line_view =~~= ContentV::Text(trim_spaces(st.save)));
                assert forall|a: int|
                    0 <= a < st.nodes.len() implies (#[trigger] tree@[a]).children == st.nodes[
                    a].children && tree@[a].parent == st.nodes[a].parent by {}
                lemma_update_keeps_wf(st.nodes, tree@);
            }
        } else if (c == ',' || c == '\n') && trigger_phase {
            let token = crate::strutil::chars_to_string(&event);
            let allowed = crate::strutil::vec_contains_string(&infos.trigger_event, &token);
            let ghost token_view = token@;
            let node = &mut tree.nodes[current];
            if allowed {
                node.trigger_event.push(token);
            }
            event = Vec::new();
            if c == '\n' {
                trigger_phase = false;
            }
            proof {
                let fired = if infos@.trigger_event.contains(st.event) {
                    st.nodes[current as int].trigger_event.push(st.event)
                } else {
                    st.nodes[current as int].trigger_event
                };
                let expected = st.nodes.update(
                    current as int,
                    NodeV { trigger_event: fired, ..st.nodes[current as int] },
                );
                assert(tree@ =~~= expected);
                assert forall|a: int|
                    0 <= a < st.nodes.len() implies (#[trigger] tree@[a]).children == st.nodes[
                    a].children && tree@[a].parent == st.nodes[a].parent by {}
                lemma_update_keeps_wf(st.nodes, tree@);
            }
        } else if c < '\u{0080}' || crate::strutil::char_is_alphanumeric(c) {
            if c == '/' {
                except = true;
            } else if condition_phase {
                if c == 'k' && !event_phase {
                    karma_phase = true;
                    post_colon = true;
                } else if c == 'e' && !event_phase {
                    event_phase = true;
                    post_colon = true;
                } else if c == ':' && (event_phase || karma_phase) {
                    post_colon = false;
                } else if karma_phase && !post_colon && c != ' ' {
                    karma.push(c);
                } else if event_phase && c != ' ' && !post_colon {
                    event.push(c);
                }
            } else if trigger_phase && c != ' ' {
                event.push(c);
            } else if c == '\n' && !except {
                choice_mode = false;
                author_phase = false;
                content_phase = false;
            } else if author_phase && c != '#' {
                author.push(c);
            } else {
                save.push(c);
                except = false;
            }
        }
        proof {
            let new_st = ScanState {
                nodes: tree@,
                current: current as int,
                author: author@,
                save: save@,
                karma: karma@,
                event: event@,
                karma_first,
                cond_karma,
                cond_event: cond_event.deep_view(),
                choice_mode,
                except,
                header_numbers: header_numbers as int,
                last_header_numbers: last_header_numbers as int,
                author_phase,
                content_phase,
                condition_phase,
                karma_phase,
                event_phase,
                post_colon,
                trigger_phase,
            };
            let stepped = scan_step(st, chars@[i as int], infos@);
            assert(stepped is Ok);
            assert(stepped->Ok_0 =~~= new_st);
            assert(scan_upto(chars@, i + 1, infos@) == Ok::<ScanState, ErrV>(new_st));
        }
        i += 1;
    }
    proof {
        assert(spec_parse(s@, infos@) == Ok::<Seq<NodeV>, ErrV>(tree@));
    }
    Ok(tree)
}

} // verus!

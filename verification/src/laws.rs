//! Laws of the scanner that hold of every input: normalized karma bounds in
//! every parsed tree, the `MAX`/`MIN` substitution, and the dropping of
//! unknown event names.

use vstd::prelude::*;

use crate::dialog::ContentV;
use crate::dialog::InfosV;
use crate::dialog::NodeV;
use crate::scan::ScanState;
use crate::scan::init_scan_state;
use crate::scan::is_max_keyword;
use crate::scan::is_min_keyword;
use crate::scan::ordered_bounds;
use crate::scan::scan_step;
use crate::scan::scan_upto;
use crate::scan::spec_climb;
use crate::scan::parents_wf;
use crate::scan::spec_add_event;
use crate::scan::spec_karma_value;
use crate::scan::spec_parse;

verus! {

/// Spec: the threshold, when present, is in ascending order.
pub open spec fn threshold_sorted(t: Option<(i32, i32)>) -> bool {
    t matches Some(b) ==> b.0 <= b.1
}

/// Spec: every choice condition of the content has a sorted threshold.
pub open spec fn content_conds_sorted(content: Seq<ContentV>) -> bool {
    forall|i: int|
        0 <= i < content.len() ==> ((#[trigger] content[i]) matches ContentV::Choice {
            condition, .. } ==> (condition matches Some(c) ==> threshold_sorted(
            c.karma_threshold,
        )))
}

/// Spec: every choice condition of every node has a sorted threshold.
pub open spec fn nodes_conds_sorted(nodes: Seq<NodeV>) -> bool {
    forall|i: int| 0 <= i < nodes.len() ==> content_conds_sorted((#[trigger] nodes[i]).content)
}

/// Spec: the scanner state is sound: the cursor is a node of the arena,
/// parent links climb, and every threshold, pending or committed, is sorted.
pub open spec fn state_conds_sorted(st: ScanState) -> bool {
    &&& 0 <= st.current < st.nodes.len()
    &&& parents_wf(st.nodes)
    &&& threshold_sorted(st.cond_karma)
    &&& nodes_conds_sorted(st.nodes)
}

proof fn lemma_climb_in_range(nodes: Seq<NodeV>, cur: int, n: int)
    requires
        parents_wf(nodes),
        0 <= cur < nodes.len(),
    ensures
        spec_climb(nodes, cur, n) matches Some(p) ==> 0 <= p < nodes.len(),
    decreases n,
{
    if n > 0 {
        match nodes[cur].parent {
            None => {},
            Some(p) => {
                lemma_climb_in_range(nodes, p as int, n - 1);
            },
        }
    }
}

/// Ordering two karma bounds gives the smaller first: the result is sorted
/// and holds exactly the two operands.
pub proof fn lemma_ordered_bounds(x: i32, k: i32)
    ensures
        ordered_bounds(x, k).0 <= ordered_bounds(x, k).1,
        ordered_bounds(x, k) == (x, k) || ordered_bounds(x, k) == (k, x),
{
}

/// The `MAX` and `MIN` keywords (in either case) denote exactly the
/// configured upper and lower karma limits.
pub proof fn lemma_max_min_substitution(limits: (i32, i32), tok: Seq<char>)
    ensures
        is_max_keyword(tok) ==> spec_karma_value(tok, Some(limits)) == Some(limits.1),
        is_min_keyword(tok) ==> spec_karma_value(tok, Some(limits)) == Some(limits.0),
{
    if is_min_keyword(tok) {
        assert(!is_max_keyword(tok)) by {
            if tok == seq!['M', 'I', 'N'] {
                assert(tok[1] == 'I');
            } else {
                assert(tok[1] == 'i');
            }
        }
    }
}

/// An event token absent from the allow-list leaves the accumulated events
/// unchanged: it is dropped, and nothing else is affected.
pub proof fn lemma_unknown_event_dropped(
    cur: Option<Seq<Seq<char>>>,
    tok: Seq<char>,
    allow: Seq<Seq<char>>,
)
    requires
        !allow.contains(tok),
    ensures
        spec_add_event(cur, tok, allow) == cur,
{
}

proof fn lemma_step_preserves_sorted(st: ScanState, c: char, infos: InfosV)
    requires
        state_conds_sorted(st),
        scan_step(st, c, infos) is Ok,
    ensures
        state_conds_sorted(scan_step(st, c, infos)->Ok_0),
{
    let st2 = scan_step(st, c, infos)->Ok_0;
    if c == '#' && !st.except {
    } else if c == '-' && !st.condition_phase && !st.except {
    } else if c == '>' && st.content_phase && !st.except {
    } else if c == '|' && st.content_phase && !st.except {
    } else if c == ',' && st.karma_phase && st.condition_phase {
    } else if c == '\n' && st.author_phase {
        if st.last_header_numbers != 0 {
            let ascents = if st.last_header_numbers + 1 > st.header_numbers {
                st.last_header_numbers + 1 - st.header_numbers
            } else {
                0
            };
            lemma_climb_in_range(st.nodes, st.current, ascents);
            let p = spec_climb(st.nodes, st.current, ascents)->Some_0;
            assert(0 <= p < st.nodes.len());
            assert forall|i: int| 0 <= i < st2.nodes.len() implies content_conds_sorted(
                (#[trigger] st2.nodes[i]).content,
            ) by {
                if i < st.nodes.len() {
                    assert(st2.nodes[i].content == st.nodes[i].content);
                } else {
                    assert(st2.nodes[i].content.len() == 0);
                }
            }
            assert forall|i: int| 0 <= i < st2.nodes.len() implies ((
            #[trigger] st2.nodes[i].parent) matches Some(q) ==> (q as int) < i) by {
                if i < st.nodes.len() {
                    assert(st2.nodes[i].parent == st.nodes[i].parent);
                } else {
                    assert(st2.nodes[i].parent == Some(p as usize));
                }
            }
        } else {
            assert forall|i: int| 0 <= i < st2.nodes.len() implies content_conds_sorted(
                (#[trigger] st2.nodes[i]).content,
            ) by {
                assert(st2.nodes[i].content == st.nodes[i].content);
            }
            assert forall|i: int| 0 <= i < st2.nodes.len() implies ((
            #[trigger] st2.nodes[i].parent) matches Some(q) ==> (q as int) < i) by {
                assert(st2.nodes[i].parent == st.nodes[i].parent);
            }
        }
    } else if c == ';' && st.karma_phase {
        lemma_ordered_bounds(
            match st.karma_first {
                Some(x) => x,
                None => 0,
            },
            match spec_karma_value(st.karma, infos.karma_limits) {
                Some(k) => k,
                None => 0,
            },
        );
    } else if (c == ';' || c == ',') && st.event_phase {
    } else if c == '\n' && st.condition_phase && st.choice_mode {
        let old_content = st.nodes[st.current].content;
        assert forall|i: int| 0 <= i < st2.nodes.len() implies content_conds_sorted(
            (#[trigger] st2.nodes[i]).content,
        ) by {
            if i == st.current {
                assert forall|j: int| 0 <= j < st2.nodes[i].content.len() implies ((
                #[trigger] st2.nodes[i].content[j]) matches ContentV::Choice {
                    condition, .. } ==> (condition matches Some(cv) ==> threshold_sorted(
                    cv.karma_threshold,
                ))) by {
                    if j < old_content.len() {
                        assert(st2.nodes[i].content[j] == old_content[j]);
                        assert(content_conds_sorted(old_content));
                    } else {
                        assert(threshold_sorted(st.cond_karma));
                    }
                }
            } else {
                assert(st2.nodes[i].content == st.nodes[i].content);
            }
        }
        assert forall|i: int| 0 <= i < st2.nodes.len() implies ((
        #[trigger] st2.nodes[i].parent) matches Some(q) ==> (q as int) < i) by {
            assert(st2.nodes[i].parent == st.nodes[i].parent);
        }
    } else if c == '\n' && st.content_phase && st.save.len() > 0 && !st.choice_mode
        && !st.except {
        let old_content = st.nodes[st.current].content;
        assert forall|i: int| 0 <= i < st2.nodes.len() implies content_conds_sorted(
            (#[trigger] st2.nodes[i]).content,
        ) by {
            if i == st.current {
                assert forall|j: int| 0 <= j < st2.nodes[i].content.len() implies ((
                #[trigger] st2.nodes[i].content[j]) matches ContentV::Choice {
                    condition, .. } ==> (condition matches Some(cv) ==> threshold_sorted(
                    cv.karma_threshold,
                ))) by {
                    if j < old_content.len() {
                        assert(st2.nodes[i].content[j] == old_content[j]);
                        assert(content_conds_sorted(old_content));
                    }
                }
            } else {
                assert(st2.nodes[i].content == st.nodes[i].content);
            }
        }
        assert forall|i: int| 0 <= i < st2.nodes.len() implies ((
        #[trigger] st2.nodes[i].parent) matches Some(q) ==> (q as int) < i) by {
            assert(st2.nodes[i].parent == st.nodes[i].parent);
        }
    } else if (c == ',' || c == '\n') && st.trigger_phase {
        assert forall|i: int| 0 <= i < st2.nodes.len() implies content_conds_sorted(
            (#[trigger] st2.nodes[i]).content,
        ) by {
            assert(st2.nodes[i].content == st.nodes[i].content);
        }
        assert forall|i: int| 0 <= i < st2.nodes.len() implies ((
        #[trigger] st2.nodes[i].parent) matches Some(q) ==> (q as int) < i) by {
            assert(st2.nodes[i].parent == st.nodes[i].parent);
        }
    } else {
    }
}

proof fn lemma_scan_upto_sorted(s: Seq<char>, i: int, infos: InfosV)
    requires
        0 <= i,
    ensures
        scan_upto(s, i, infos) matches Ok(st) ==> state_conds_sorted(st),
    decreases i,
{
    if i == 0 {
        assert(init_scan_state().nodes[0].content.len() == 0);
    } else {
        lemma_scan_upto_sorted(s, i - 1, infos);
        match scan_upto(s, i - 1, infos) {
            Ok(st) => {
                if scan_upto(s, i, infos) is Ok {
                    lemma_step_preserves_sorted(st, s[i - 1], infos);
                }
            },
            Err(..) => {},
        }
    }
}

/// Karma bound normalization: in any tree the scanner accepts, every karma
/// threshold of every choice condition is in ascending order, whatever the
/// source text and the configuration.
pub proof fn lemma_parsed_karma_bounds_sorted(s: Seq<char>, infos: InfosV)
    ensures
        spec_parse(s, infos) matches Ok(nodes) ==> nodes_conds_sorted(nodes),
{
    if s.len() > 0 && s.last() == '\n' {
        lemma_scan_upto_sorted(s, s.len() as int, infos);
    }
}

} // verus!

//! The pretty-printer: serializes a (sub)tree back to dialog source text,
//! the inverse of the scanner on well-formed trees.
//!
//! The output is specified character-for-character by [`spec_print_node`]:
//! one `#` per depth level and the author (`Narator` when absent), a blank
//! line, one `- ` line per content item (choices carry ` | ` and the
//! condition in the canonical `karma: a,b;` / `event: x,y;` spelling,
//! `None` when absent), a `-> ` line for trigger events, and each child
//! printed one level deeper after a blank line.

use vstd::prelude::*;

use crate::dialog::ContentV;
use crate::dialog::CondV;
use crate::dialog::DialogContent;
use crate::dialog::DialogTree;
use crate::dialog::NodeV;
use crate::dialog::tree_wf;
use crate::numbers::int_string;

verus! {

/// Spec: `n` copies of the character `c`.
pub open spec fn repeat_char(c: char, n: int) -> Seq<char>
    decreases n,
{
    if n <= 0 {
        Seq::empty()
    } else {
        repeat_char(c, n - 1) + seq![c]
    }
}

/// Spec: the first `n` names joined by `,`.
pub open spec fn names_joined(es: Seq<Seq<char>>, n: int) -> Seq<char>
    decreases n,
{
    if n <= 0 {
        Seq::empty()
    } else if n == 1 {
        es[0]
    } else {
        names_joined(es, n - 1) + ","@ + es[n - 1]
    }
}

/// Spec: the first `n` names joined by `, `.
pub open spec fn names_joined_spaced(es: Seq<Seq<char>>, n: int) -> Seq<char>
    decreases n,
{
    if n <= 0 {
        Seq::empty()
    } else if n == 1 {
        es[0]
    } else {
        names_joined_spaced(es, n - 1) + ", "@ + es[n - 1]
    }
}

/// Spec: the canonical text of a condition: its karma clause, a space when
/// both clauses are present, and its event clause.
pub open spec fn spec_cond_text(c: CondV) -> Seq<char> {
    let karma_part = match c.karma_threshold {
        Some((low, high)) => "karma: "@ + int_string(low as int) + ","@ + int_string(high as int)
            + ";"@,
        None => Seq::<char>::empty(),
    };
    let event_part = match c.event {
        Some(es) => if es.len() > 0 {
            "event: "@ + names_joined(es, es.len() as int) + ";"@
        } else {
            Seq::<char>::empty()
        },
        None => Seq::<char>::empty(),
    };
    if karma_part.len() > 0 && event_part.len() > 0 {
        karma_part + " "@ + event_part
    } else {
        karma_part + event_part
    }
}

/// Spec: one printed content line, with its final newline.
pub open spec fn spec_line(item: ContentV) -> Seq<char> {
    match item {
        ContentV::Text(t) => "- "@ + t + "\n"@,
        ContentV::Choice { text, condition } => match condition {
            None => "- "@ + text + " | "@ + "None"@ + "\n"@,
            Some(c) => "- "@ + text + " | "@ + spec_cond_text(c) + "\n"@,
        },
    }
}

/// Spec: the first `n` printed content lines.
pub open spec fn spec_lines(content: Seq<ContentV>, n: int) -> Seq<char>
    decreases n,
{
    if n <= 0 {
        Seq::empty()
    } else {
        spec_lines(content, n - 1) + spec_line(content[n - 1])
    }
}

/// Spec: the trigger-event line, empty when the node fires no event.
pub open spec fn spec_trigger_text(es: Seq<Seq<char>>) -> Seq<char> {
    if es.len() > 0 {
        "\n-> "@ + names_joined_spaced(es, es.len() as int) + "\n"@
    } else {
        Seq::<char>::empty()
    }
}

/// Spec: the printed text of the subtree at `idx`, with `depth` leading `#`.
pub open spec fn spec_print_node(tree: Seq<NodeV>, idx: int, depth: int) -> Seq<char>
    decreases tree.len() - idx, 1int, 0int,
        when tree_wf(tree) && 0 <= idx < tree.len()
{
    let node = tree[idx];
    let name = match node.author {
        Some(a) => a,
        None => "Narator"@,
    };
    repeat_char('#', depth) + " "@ + name + "\n\n"@ + spec_lines(
        node.content,
        node.content.len() as int,
    ) + spec_trigger_text(node.trigger_event) + spec_print_kids(
        tree,
        idx,
        node.children.len() as int,
        depth + 1,
    )
}

/// Spec: the printed text of the first `n` children of node `idx`, each
/// after a blank line.
pub open spec fn spec_print_kids(tree: Seq<NodeV>, idx: int, n: int, depth: int) -> Seq<char>
    decreases tree.len() - idx, 0int, n,
        when tree_wf(tree) && 0 <= idx < tree.len() && n <= tree[idx].children.len()
{
    if n <= 0 {
        Seq::empty()
    } else {
        spec_print_kids(tree, idx, n - 1, depth) + "\n"@ + spec_print_node(
            tree,
            tree[idx].children[n - 1] as int,
            depth,
        )
    }
}

/// Appends the characters of `s`.
fn append_str(out: &mut Vec<char>, s: &str)
    ensures
        final(out)@ == old(out)@ + s@,
{
    let mut v = crate::strutil::str_chars(s);
    out.append(&mut v);
}

/// Appends the canonical decimal text of `n`.
fn append_i32(out: &mut Vec<char>, n: i32)
    ensures
        final(out)@ == old(out)@ + int_string(n as int),
{
    let ghost prefix = out@;
    if n < 0 {
        out.push('-');
        let magnitude = (-(n as i64)) as u64;
        let mut digits = crate::numbers::u64_digits(magnitude);
        let ghost dview = digits@;
        out.append(&mut digits);
        proof {
            assert(out@ =~= prefix + (seq!['-'] + dview));
        }
    } else {
        let mut digits = crate::numbers::u64_digits(n as u64);
        out.append(&mut digits);
    }
}

/// Appends the canonical text of a condition, per [`spec_cond_text`].
fn append_cond(out: &mut Vec<char>, cond: &crate::dialog::DialogCondition)
    ensures
        final(out)@ == old(out)@ + spec_cond_text(cond@),
{
    let ghost prefix = out@;
    let mut karma_part: Vec<char> = Vec::new();
    match cond.karma_threshold {
        Some(t) => {
            append_str(&mut karma_part, "karma: ");
            append_i32(&mut karma_part, t.0);
            append_str(&mut karma_part, ",");
            append_i32(&mut karma_part, t.1);
            append_str(&mut karma_part, ";");
        },
        None => {},
    }
    let mut event_part: Vec<char> = Vec::new();
    match &cond.event {
        Some(es) => {
            if es.len() > 0 {
                append_str(&mut event_part, "event: ");
                let ghost views = es.deep_view();
                let mut j: usize = 0;
                while j < es.len()
                    invariant
                        0 <= j <= es.len(),
                        views == es.deep_view(),
                        event_part@ == "event: "@ + names_joined(views, j as int) + (if j > 0 {
                            Seq::<char>::empty()
                        } else {
                            Seq::<char>::empty()
                        }),
                    decreases es.len() - j,
                {
                    if j > 0 {
                        append_str(&mut event_part, ",");
                    }
                    append_str(&mut event_part, es[j].as_str());
                    proof {
                        assert(views[j as int] == es.deep_view()[j as int]);
                    }
                    j += 1;
                }
                append_str(&mut event_part, ";");
                proof {
                    assert(event_part@ == "event: "@ + names_joined(views, es@.len() as int)
                        + ";"@);
                }
            }
        },
        None => {},
    }
    proof {
        let cv = cond@;
        match cv.karma_threshold {
            Some((low, high)) => {
                assert(karma_part@ =~= "karma: "@ + int_string(low as int) + ","@ + int_string(
                    high as int,
                ) + ";"@);
                assert(karma_part@.len() > 0) by {
                    reveal_strlit("karma: ");
                }
            },
            None => {
                assert(karma_part@.len() == 0);
            },
        }
        match cv.event {
            Some(es) => {
                if es.len() > 0 {
                    assert(event_part@.len() > 0) by {
                        reveal_strlit("event: ");
                    }
                } else {
                    assert(event_part@.len() == 0);
                }
            },
            None => {
                assert(event_part@.len() == 0);
            },
        }
    }
    if karma_part.len() > 0 && event_part.len() > 0 {
        out.append(&mut karma_part);
        out.push(' ');
        out.append(&mut event_part);
        proof {
            reveal_strlit(" ");
            assert(" "@ =~= seq![' ']);
            assert(out@ =~= prefix + spec_cond_text(cond@));
        }
    } else {
        out.append(&mut karma_part);
        out.append(&mut event_part);
        proof {
            assert(out@ =~= prefix + spec_cond_text(cond@));
        }
    }
}

impl DialogTree {
    /// The source text of the whole tree, the root printed at depth one.
    pub fn print_file(&self) -> (r: String)
        requires
            self.wf(),
        ensures
            r@ == spec_print_node(self@, 0, 1),
    {
        self.print_file_from(0)
    }

    /// The source text of the subtree rooted at `idx`, re-rooted at depth
    /// one, so that parsing it again yields that subtree as a fresh tree.
    pub fn print_file_from(&self, idx: usize) -> (r: String)
        requires
            self.wf(),
            idx < self@.len(),
        ensures
            r@ == spec_print_node(self@, idx as int, 1),
    {
        let chars = self.print_file_aux(idx, 1);
        crate::strutil::chars_to_string(&chars)
    }

    /// The printed characters of the subtree at `idx` with `depth` leading `#`.
    fn print_file_aux(&self, idx: usize, depth: usize) -> (r: Vec<char>)
        requires
            self.wf(),
            idx < self@.len(),
            1 <= depth <= idx + 1,
        ensures
            r@ == spec_print_node(self@, idx as int, depth as int),
        decreases self@.len() - idx, 1int, 0int,
    {
        let mut out: Vec<char> = Vec::new();
        let mut h: usize = 0;
        while h < depth
            invariant
                0 <= h <= depth,
                out@ == repeat_char('#', h as int),
            decreases depth - h,
        {
            out.push('#');
            h += 1;
        }
        append_str(&mut out, " ");
        let node = &self.nodes[idx];
        match &node.author {
            Some(a) => {
                append_str(&mut out, a.as_str());
            },
            None => {
                append_str(&mut out, "Narator");
            },
        }
        append_str(&mut out, "\n\n");
        let ghost header = out@;
        let ghost content_views = node.content.deep_view();
        let mut li: usize = 0;
        while li < node.content.len()
            invariant
                self.wf(),
                idx < self@.len(),
                node == &self.nodes@[idx as int],
                content_views == node.content.deep_view(),
                0 <= li <= node.content.len(),
                out@ == header + spec_lines(content_views, li as int),
            decreases node.content.len() - li,
        {
            append_str(&mut out, "- ");
            match &node.content[li] {
                DialogContent::Text(t) => {
                    append_str(&mut out, t.as_str());
                },
                DialogContent::Choice { text, condition } => {
                    append_str(&mut out, text.as_str());
                    append_str(&mut out, " | ");
                    match condition {
                        None => {
                            append_str(&mut out, "None");
                        },
                        Some(c) => {
                            append_cond(&mut out, c);
                        },
                    }
                },
            }
            append_str(&mut out, "\n");
            proof {
                assert(content_views[li as int] == node.content.deep_view()[li as int]);
                assert(out@ =~= header + spec_lines(content_views, li + 1));
            }
            li += 1;
        }
        let ghost with_lines = out@;
        let ghost trigger_views = node.trigger_event.deep_view();
        if node.trigger_event.len() > 0 {
            append_str(&mut out, "\n-> ");
            let mut ti: usize = 0;
            while ti < node.trigger_event.len()
                invariant
                    self.wf(),
                    idx < self@.len(),
                    node == &self.nodes@[idx as int],
                    trigger_views == node.trigger_event.deep_view(),
                    0 < node.trigger_event.len(),
                    0 <= ti <= node.trigger_event.len(),
                    out@ == with_lines + "\n-> "@ + names_joined_spaced(
                        trigger_views,
                        ti as int,
                    ),
                decreases node.trigger_event.len() - ti,
            {
                if ti > 0 {
                    append_str(&mut out, ", ");
                }
                append_str(&mut out, node.trigger_event[ti].as_str());
                proof {
                    assert(trigger_views[ti as int] == node.trigger_event.deep_view()[ti as int]);
                }
                ti += 1;
            }
            append_str(&mut out, "\n");
            proof {
                assert(out@ =~= with_lines + spec_trigger_text(trigger_views));
            }
        }
        let ghost with_trigger = out@;
        proof {
            assert(with_trigger == header + spec_lines(content_views, content_views.len() as int)
                + spec_trigger_text(trigger_views));
        }
        let total_nodes = self.nodes.len();
        proof {
            assert(self@.len() <= usize::MAX);
        }
        let n_children = node.children.len();
        let mut ci: usize = 0;
        while ci < n_children
            invariant
                self.wf(),
                idx < self@.len(),
                self@.len() <= usize::MAX,
                1 <= depth <= idx + 1,
                n_children == self@[idx as int].children.len(),
                0 <= ci <= n_children,
                out@ == with_trigger + spec_print_kids(self@, idx as int, ci as int, depth + 1),
            decreases self@.len() - idx, 0int, n_children - ci,
        {
            let child = self.nodes[idx].children[ci];
            assert((child as int) == self@[idx as int].children[ci as int]);
            assert(idx < child < self@.len());
            proof {
                assert(self@.len() == self.nodes@.len());
                assert(depth + 1 <= child + 1 <= usize::MAX);
            }
            append_str(&mut out, "\n");
            let mut sub = self.print_file_aux(child, depth + 1);
            out.append(&mut sub);
            proof {
                assert(out@ =~= with_trigger + spec_print_kids(
                    self@,
                    idx as int,
                    ci + 1,
                    depth + 1,
                ));
            }
            ci += 1;
        }
        proof {
            assert(out@ =~= spec_print_node(self@, idx as int, depth as int));
        }
        out
    }
}

} // verus!

//! The round-trip law, proved for single-node trees: printing a tree of one
//! node — a monologue with trigger events, or a choice node whose choices
//! carry any printable condition — and parsing the result yields exactly
//! that tree.
//!
//! Plain characters ([`plain_char`]) are the ones the scanner stores as
//! ordinary text: ASCII or alphanumeric, and none of the structural
//! characters `#`, `-`, `>`, `|`, `/` or the newline.  Texts with
//! structural characters print without escapes and so do not survive the
//! trip; they are outside this law, as are trees of more than one node.

use vstd::prelude::*;

use crate::dialog::CondV;
use crate::dialog::ContentV;
use crate::dialog::ErrV;
use crate::dialog::InfosV;
use crate::dialog::NodeV;
use crate::dialog::tree_wf;
use crate::numbers::int_string;
use crate::numbers::int_string_val;
use crate::print::spec_cond_text;
use crate::print::spec_line;
use crate::print::spec_lines;
use crate::print::spec_print_node;
use crate::print::repeat_char;
use crate::scan::ScanState;
use crate::scan::empty_node;
use crate::scan::init_scan_state;
use crate::scan::is_ascii_char;
use crate::scan::scan_step;
use crate::scan::scan_upto;
use crate::scan::spec_parse;
use crate::strutil::strip_leading_spaces;
use crate::strutil::strip_trailing_spaces;
use crate::strutil::trim_spaces;
use crate::strutil::unicode_alphanumeric;

verus! {

/// Spec: a character the scanner reads as plain text: ASCII or alphanumeric,
/// and not one of the structural characters.
pub open spec fn plain_char(c: char) -> bool {
    &&& is_ascii_char(c) || unicode_alphanumeric(c)
    &&& c != '#'
    &&& c != '-'
    &&& c != '>'
    &&& c != '|'
    &&& c != '/'
    &&& c != '\n'
}

/// Spec: a name or line that survives the trip: nonempty, plain characters
/// only, no leading and no trailing space.
pub open spec fn plain_text(t: Seq<char>) -> bool {
    &&& t.len() > 0
    &&& t[0] != ' '
    &&& t[t.len() - 1] != ' '
    &&& forall|i: int| 0 <= i < t.len() ==> plain_char(#[trigger] t[i])
}

/// Spec: the fold of the scanner over `s` starting from `st`.
pub open spec fn scan_seq(st: ScanState, s: Seq<char>, infos: InfosV) -> Result<ScanState, ErrV>
    decreases s.len(),
{
    if s.len() == 0 {
        Ok(st)
    } else {
        match scan_step(st, s[0], infos) {
            Ok(st2) => scan_seq(st2, s.skip(1), infos),
            Err(e) => Err(e),
        }
    }
}

proof fn lemma_scan_seq_append(st: ScanState, a: Seq<char>, b: Seq<char>, infos: InfosV)
    ensures
        scan_seq(st, a + b, infos) == match scan_seq(st, a, infos) {
            Ok(m) => scan_seq(m, b, infos),
            Err(e) => Err(e),
        },
    decreases a.len(),
{
    if a.len() == 0 {
        assert(a + b == b);
    } else {
        assert((a + b)[0] == a[0]);
        match scan_step(st, a[0], infos) {
            Ok(st2) => {
                assert((a + b).skip(1) == a.skip(1) + b);
                lemma_scan_seq_append(st2, a.skip(1), b, infos);
            },
            Err(..) => {},
        }
    }
}

proof fn lemma_scan_seq_single(st: ScanState, c: char, infos: InfosV)
    ensures
        scan_seq(st, seq![c], infos) == scan_step(st, c, infos),
{
    let s = seq![c];
    assert(s.len() == 1);
    assert(s[0] == c);
    match scan_step(st, c, infos) {
        Ok(st2) => {
            assert(s.skip(1).len() == 0);
            assert(scan_seq(st2, s.skip(1), infos) == Ok::<ScanState, ErrV>(st2));
        },
        Err(..) => {},
    }
}

proof fn lemma_scan_upto_is_scan_seq(s: Seq<char>, i: int, infos: InfosV)
    requires
        0 <= i <= s.len(),
    ensures
        scan_upto(s, i, infos) == scan_seq(init_scan_state(), s.take(i), infos),
    decreases i,
{
    if i == 0 {
        assert(s.take(0).len() == 0);
    } else {
        lemma_scan_upto_is_scan_seq(s, i - 1, infos);
        assert(s.take(i) == s.take(i - 1) + seq![s[i - 1]]);
        lemma_scan_seq_append(init_scan_state(), s.take(i - 1), seq![s[i - 1]], infos);
        match scan_seq(init_scan_state(), s.take(i - 1), infos) {
            Ok(m) => {
                lemma_scan_seq_single(m, s[i - 1], infos);
            },
            Err(..) => {},
        }
    }
}

/// Spec: the scanner state while reading a header name: the `#` seen, the
/// name so far in the author buffer.
pub open spec fn header_state(acc: Seq<char>) -> ScanState {
    ScanState { author: acc, author_phase: true, header_numbers: 1, ..init_scan_state() }
}

/// Spec: a node right after its header: the author named, nothing else.
pub open spec fn started_node(author: Seq<char>) -> NodeV {
    NodeV { author: Some(author), ..empty_node() }
}

/// Spec: the scanner state right after a header line.
pub open spec fn start_idle(author: Seq<char>) -> ScanState {
    ScanState {
        nodes: seq![started_node(author)],
        last_header_numbers: 1,
        ..init_scan_state()
    }
}

/// Spec: the single node of a monologue tree: the author, the first `k`
/// texts as content, and the trigger events fired so far.
pub open spec fn mono_node(
    author: Seq<char>,
    texts: Seq<Seq<char>>,
    k: int,
    fired: Seq<Seq<char>>,
) -> NodeV {
    NodeV {
        content: Seq::new(k as nat, |i: int| ContentV::Text(texts[i])),
        author: Some(author),
        trigger_event: fired,
        ..empty_node()
    }
}

/// Spec: the scanner state between lines of the monologue: `k` texts
/// committed, nothing pending but possibly stray spaces in the text buffer.
pub open spec fn idle_state(
    author: Seq<char>,
    texts: Seq<Seq<char>>,
    k: int,
    fired: Seq<Seq<char>>,
    junk: Seq<char>,
) -> ScanState {
    ScanState {
        nodes: seq![mono_node(author, texts, k, fired)],
        last_header_numbers: 1,
        save: junk,
        ..init_scan_state()
    }
}

/// Spec: the scanner state inside a content line: the buffer holds `acc`.
pub open spec fn line_state(
    author: Seq<char>,
    texts: Seq<Seq<char>>,
    k: int,
    acc: Seq<char>,
) -> ScanState {
    ScanState { content_phase: true, ..idle_state(author, texts, k, Seq::empty(), acc) }
}

/// Spec: the scanner state inside a trigger line: the events committed so
/// far, the pending name, and the stray spaces the separators leave in the
/// text buffer.
pub open spec fn trigger_state(
    author: Seq<char>,
    texts: Seq<Seq<char>>,
    k: int,
    fired: Seq<Seq<char>>,
    acc: Seq<char>,
    junk: Seq<char>,
) -> ScanState {
    ScanState { trigger_phase: true, event: acc, ..idle_state(author, texts, k, fired, junk) }
}

/// Spec: a trigger-event name that survives the trip: nonempty, plain
/// characters, no space and no comma.
pub open spec fn plain_event(e: Seq<char>) -> bool {
    &&& e.len() > 0
    &&& forall|i: int| 0 <= i < e.len() ==> plain_char(#[trigger] e[i]) && e[i] != ' ' && e[i] != ','
}

proof fn lemma_scan_plain_author(acc: Seq<char>, a: Seq<char>, infos: InfosV)
    requires
        forall|i: int| 0 <= i < a.len() ==> plain_char(#[trigger] a[i]),
    ensures
        scan_seq(header_state(acc), a, infos) == Ok::<ScanState, ErrV>(header_state(acc + a)),
    decreases a.len(),
{
    if a.len() == 0 {
        assert(acc + a == acc);
    } else {
        let c = a[0];
        assert(plain_char(c));
        assert(scan_step(header_state(acc), c, infos) == Ok::<ScanState, ErrV>(
            header_state(acc.push(c)),
        ));
        lemma_scan_plain_author(acc.push(c), a.skip(1), infos);
        assert(acc.push(c) + a.skip(1) == acc + a);
    }
}

proof fn lemma_scan_plain_save(
    author: Seq<char>,
    texts: Seq<Seq<char>>,
    k: int,
    acc: Seq<char>,
    a: Seq<char>,
    infos: InfosV,
)
    requires
        forall|i: int| 0 <= i < a.len() ==> plain_char(#[trigger] a[i]),
    ensures
        scan_seq(line_state(author, texts, k, acc), a, infos) == Ok::<ScanState, ErrV>(
            line_state(author, texts, k, acc + a),
        ),
    decreases a.len(),
{
    if a.len() == 0 {
        assert(acc + a == acc);
    } else {
        let c = a[0];
        assert(plain_char(c));
        assert(scan_step(line_state(author, texts, k, acc), c, infos) == Ok::<ScanState, ErrV>(
            line_state(author, texts, k, acc.push(c)),
        ));
        lemma_scan_plain_save(author, texts, k, acc.push(c), a.skip(1), infos);
        assert(acc.push(c) + a.skip(1) == acc + a);
    }
}

proof fn lemma_scan_plain_event(
    author: Seq<char>,
    texts: Seq<Seq<char>>,
    k: int,
    fired: Seq<Seq<char>>,
    acc: Seq<char>,
    junk: Seq<char>,
    a: Seq<char>,
    infos: InfosV,
)
    requires
        forall|i: int|
            0 <= i < a.len() ==> plain_char(#[trigger] a[i]) && a[i] != ' ' && a[i] != ',',
    ensures
        scan_seq(trigger_state(author, texts, k, fired, acc, junk), a, infos) == Ok::<
            ScanState,
            ErrV,
        >(trigger_state(author, texts, k, fired, acc + a, junk)),
    decreases a.len(),
{
    if a.len() == 0 {
        assert(acc + a == acc);
    } else {
        let c = a[0];
        assert(plain_char(c) && c != ' ' && c != ',');
        assert(scan_step(trigger_state(author, texts, k, fired, acc, junk), c, infos) == Ok::<
            ScanState,
            ErrV,
        >(trigger_state(author, texts, k, fired, acc.push(c), junk)));
        lemma_scan_plain_event(author, texts, k, fired, acc.push(c), junk, a.skip(1), infos);
        assert(acc.push(c) + a.skip(1) == acc + a);
    }
}

proof fn lemma_trim_padded(t: Seq<char>)
    requires
        plain_text(t),
    ensures
        trim_spaces(seq![' '] + t) == t,
    decreases t.len(),
{
    let padded = seq![' '] + t;
    assert(padded[0] == ' ');
    assert(padded.skip(1) == t);
    assert(strip_leading_spaces(padded) == strip_leading_spaces(t));
    assert(strip_leading_spaces(t) == t);
    assert(strip_trailing_spaces(t) == t);
}

proof fn lemma_scan_one_line(author: Seq<char>, texts: Seq<Seq<char>>, k: int, infos: InfosV)
    requires
        0 <= k < texts.len(),
        plain_text(texts[k]),
    ensures
        scan_seq(
            idle_state(author, texts, k, Seq::empty(), Seq::empty()),
            spec_line(ContentV::Text(texts[k])),
            infos,
        ) == Ok::<ScanState, ErrV>(idle_state(author, texts, k + 1, Seq::empty(), Seq::empty())),
{
    let t = texts[k];
    let fired = Seq::<Seq<char>>::empty();
    let line = spec_line(ContentV::Text(t));
    reveal_strlit("- ");
    reveal_strlit("\n");
    assert(line =~= seq!['-', ' '] + t + seq!['\n']);

    let s0 = idle_state(author, texts, k, fired, Seq::empty());
    let done = idle_state(author, texts, k + 1, fired, Seq::empty());
    assert(scan_step(s0, '-', infos) == Ok::<ScanState, ErrV>(
        ScanState { content_phase: true, ..s0 },
    ));
    let s1 = line_state(author, texts, k, Seq::empty());
    assert(ScanState { content_phase: true, ..s0 } == s1);

    assert(scan_step(s1, ' ', infos) == Ok::<ScanState, ErrV>(
        line_state(author, texts, k, seq![' ']),
    )) by {
        assert(Seq::<char>::empty().push(' ') =~= seq![' ']);
        assert(is_ascii_char(' '));
    }
    let s2 = line_state(author, texts, k, seq![' ']);

    lemma_scan_plain_save(author, texts, k, seq![' '], t, infos);
    let s3 = line_state(author, texts, k, seq![' '] + t);

    // The newline commits the trimmed buffer as a text line.
    let commit = scan_step(s3, '\n', infos);
    lemma_trim_padded(t);
    assert(commit is Ok);
    let s4 = commit->Ok_0;
    assert(s4 =~~= done) by {
        assert(s4.nodes =~~= seq![mono_node(author, texts, k + 1, fired)]) by {
            assert(s4.nodes[0].content =~~= mono_node(author, texts, k, fired).content.push(
                ContentV::Text(t),
            ));
            assert(mono_node(author, texts, k, fired).content.push(ContentV::Text(t)) =~~= 
                mono_node(author, texts, k + 1, fired).content);
        }
    }

    // Chain the four segments.
    let rest1 = (seq!['-', ' '] + t + seq!['\n']).skip(1);
    assert(rest1 =~= seq![' '] + t + seq!['\n']);
    let rest2 = rest1.skip(1);
    assert(rest2 =~= t + seq!['\n']);
    lemma_scan_seq_append(s2, t, seq!['\n'], infos);
    lemma_scan_seq_single(s3, '\n', infos);
    assert(scan_seq(s3, seq!['\n'], infos) == commit);
    assert(scan_seq(s2, rest2, infos) == Ok::<ScanState, ErrV>(done));
    assert(scan_seq(s1, rest1, infos) == Ok::<ScanState, ErrV>(done));
    assert(scan_seq(s0, line, infos) == Ok::<ScanState, ErrV>(done));
}

proof fn lemma_scan_lines(author: Seq<char>, texts: Seq<Seq<char>>, n: int, infos: InfosV)
    requires
        0 <= n <= texts.len(),
        forall|i: int| 0 <= i < texts.len() ==> plain_text(#[trigger] texts[i]),
    ensures
        scan_seq(
            idle_state(author, texts, 0, Seq::empty(), Seq::empty()),
            spec_lines(Seq::new(texts.len(), |i: int| ContentV::Text(texts[i])), n),
            infos,
        ) == Ok::<ScanState, ErrV>(idle_state(author, texts, n, Seq::empty(), Seq::empty())),
    decreases n,
{
    let content = Seq::new(texts.len(), |i: int| ContentV::Text(texts[i]));
    if n == 0 {
        assert(spec_lines(content, 0).len() == 0);
    } else {
        lemma_scan_lines(author, texts, n - 1, infos);
        lemma_scan_seq_append(
            idle_state(author, texts, 0, Seq::empty(), Seq::empty()),
            spec_lines(content, n - 1),
            spec_line(content[n - 1]),
            infos,
        );
        assert(content[n - 1] == ContentV::Text(texts[n - 1]));
        lemma_scan_one_line(author, texts, n - 1, infos);
    }
}

proof fn lemma_scan_header(author: Seq<char>, infos: InfosV)
    requires
        plain_text(author),
    ensures
        scan_seq(
            init_scan_state(),
            seq!['#', ' '] + author + seq!['\n', '\n'],
            infos,
        ) == Ok::<ScanState, ErrV>(start_idle(author)),
{
    let header = seq!['#', ' '] + author + seq!['\n', '\n'];
    let idle0 = start_idle(author);

    // The scanner over the header: `#`, the space and name into the author
    // buffer, the first newline committing the author, the second ignored.
    let h0 = init_scan_state();
    assert(scan_step(h0, '#', infos) == Ok::<ScanState, ErrV>(header_state(Seq::empty())));
    assert(scan_step(header_state(Seq::empty()), ' ', infos) == Ok::<ScanState, ErrV>(
        header_state(seq![' ']),
    )) by {
        assert(Seq::<char>::empty().push(' ') =~= seq![' ']);
        assert(is_ascii_char(' '));
    }
    lemma_scan_plain_author(seq![' '], author, infos);
    let after_name = header_state(seq![' '] + author);
    let commit = scan_step(after_name, '\n', infos);
    assert(commit is Ok);
    let after_commit = commit->Ok_0;
    assert(after_commit =~~= idle0) by {
        assert(strip_leading_spaces(seq![' '] + author) == author) by {
            assert((seq![' '] + author)[0] == ' ');
            assert((seq![' '] + author).skip(1) == author);
            assert(strip_leading_spaces(author) == author);
        }
        assert(after_commit.nodes =~~= seq![started_node(author)]);
    }
    assert(scan_step(idle0, '\n', infos) == Ok::<ScanState, ErrV>(idle0)) by {
        assert(is_ascii_char('\n'));
    }

    // Chain the header characters.
    let s_hash = header_state(Seq::empty());
    let s_space = header_state(seq![' ']);
    assert(scan_seq(h0, header, infos) == Ok::<ScanState, ErrV>(idle0)) by {
        let r1 = header.skip(1);
        assert(r1 =~= seq![' '] + author + seq!['\n', '\n']);
        let r2 = r1.skip(1);
        assert(r2 =~= author + seq!['\n', '\n']);
        lemma_scan_seq_append(s_space, author, seq!['\n', '\n'], infos);
        assert(scan_seq(after_name, seq!['\n', '\n'], infos) == Ok::<ScanState, ErrV>(idle0))
            by {
            let two = seq!['\n', '\n'];
            assert(two[0] == '\n');
            assert(two.skip(1) =~= seq!['\n']);
            assert(after_commit == idle0);
            lemma_scan_seq_single(idle0, '\n', infos);
            assert(scan_seq(idle0, two.skip(1), infos) == Ok::<ScanState, ErrV>(idle0));
        }
        assert(scan_seq(s_space, r2, infos) == Ok::<ScanState, ErrV>(idle0));
        assert(scan_seq(s_hash, r1, infos) == Ok::<ScanState, ErrV>(idle0));
    }
}

proof fn lemma_scan_header_and_lines(author: Seq<char>, texts: Seq<Seq<char>>, infos: InfosV)
    requires
        plain_text(author),
        forall|i: int| 0 <= i < texts.len() ==> plain_text(#[trigger] texts[i]),
    ensures
        scan_seq(
            init_scan_state(),
            seq!['#', ' '] + author + seq!['\n', '\n'] + spec_lines(
                Seq::new(texts.len(), |i: int| ContentV::Text(texts[i])),
                texts.len() as int,
            ),
            infos,
        ) == Ok::<ScanState, ErrV>(
            idle_state(author, texts, texts.len() as int, Seq::empty(), Seq::empty()),
        ),
{
    let n = texts.len() as int;
    let content = Seq::new(texts.len(), |i: int| ContentV::Text(texts[i]));
    let header = seq!['#', ' '] + author + seq!['\n', '\n'];
    let lines = spec_lines(content, n);
    lemma_scan_header(author, infos);
    assert(start_idle(author) =~~= idle_state(author, texts, 0, Seq::empty(), Seq::empty())) by {
        assert(started_node(author) =~~= mono_node(author, texts, 0, Seq::empty()));
    }
    lemma_scan_lines(author, texts, n, infos);
    lemma_scan_seq_append(init_scan_state(), header, lines, infos);
}

proof fn lemma_scan_joined(
    author: Seq<char>,
    texts: Seq<Seq<char>>,
    n: int,
    events: Seq<Seq<char>>,
    k: int,
    junk: Seq<char>,
    infos: InfosV,
)
    requires
        1 <= k <= events.len(),
        forall|i: int| 0 <= i < events.len() ==> plain_event(#[trigger] events[i])
            && infos.trigger_event.contains(events[i]),
    ensures
        scan_seq(
            trigger_state(author, texts, n, Seq::empty(), Seq::empty(), junk),
            crate::print::names_joined_spaced(events, k),
            infos,
        ) == Ok::<ScanState, ErrV>(
            trigger_state(
                author,
                texts,
                n,
                events.take(k - 1),
                events[k - 1],
                junk + repeat_char(' ', k - 1),
            ),
        ),
    decreases k,
{
    let start = trigger_state(author, texts, n, Seq::empty(), Seq::empty(), junk);
    if k == 1 {
        assert(crate::print::names_joined_spaced(events, 1) == events[0]);
        lemma_scan_plain_event(author, texts, n, Seq::empty(), Seq::empty(), junk, events[0], infos);
        assert(Seq::<char>::empty() + events[0] == events[0]);
        assert(events.take(0).len() == 0);
        assert(repeat_char(' ', 0).len() == 0);
        assert(junk + repeat_char(' ', 0) =~= junk);
        assert(events.take(0) =~~= Seq::<Seq<char>>::empty());
    } else {
        reveal_strlit(", ");
        lemma_scan_joined(author, texts, n, events, k - 1, junk, infos);
        let joined_prev = crate::print::names_joined_spaced(events, k - 1);
        let sep_and_name = ", "@ + events[k - 1];
        assert(crate::print::names_joined_spaced(events, k) == joined_prev + sep_and_name);
        lemma_scan_seq_append(start, joined_prev, sep_and_name, infos);
        let mid = trigger_state(
            author,
            texts,
            n,
            events.take(k - 2),
            events[k - 2],
            junk + repeat_char(' ', k - 2),
        );
        // The comma commits the pending name, the space joins the stray
        // buffer, and the next name accumulates.
        assert(sep_and_name =~= seq![','] + (seq![' '] + events[k - 1]));
        let committed = trigger_state(
            author,
            texts,
            n,
            events.take(k - 1),
            Seq::empty(),
            junk + repeat_char(' ', k - 2),
        );
        assert(scan_step(mid, ',', infos) == Ok::<ScanState, ErrV>(committed)) by {
            assert(infos.trigger_event.contains(events[k - 2]));
            assert(mono_node(author, texts, n, events.take(k - 2)).trigger_event.push(
                events[k - 2],
            ) =~~= events.take(k - 1));
            assert(scan_step(mid, ',', infos)->Ok_0 =~~= committed);
        }
        let spaced = trigger_state(
            author,
            texts,
            n,
            events.take(k - 1),
            Seq::empty(),
            junk + repeat_char(' ', k - 1),
        );
        assert(scan_step(committed, ' ', infos) == Ok::<ScanState, ErrV>(spaced)) by {
            assert(is_ascii_char(' '));
            assert((junk + repeat_char(' ', k - 2)).push(' ') =~= junk + repeat_char(' ', k - 1));
            assert(scan_step(committed, ' ', infos)->Ok_0 =~~= spaced);
        }
        lemma_scan_plain_event(
            author,
            texts,
            n,
            events.take(k - 1),
            Seq::empty(),
            junk + repeat_char(' ', k - 1),
            events[k - 1],
            infos,
        );
        assert(Seq::<char>::empty() + events[k - 1] == events[k - 1]);
        assert(scan_seq(mid, sep_and_name, infos) == Ok::<ScanState, ErrV>(
            trigger_state(
                author,
                texts,
                n,
                events.take(k - 1),
                events[k - 1],
                junk + repeat_char(' ', k - 1),
            ),
        )) by {
            assert(sep_and_name[0] == ',');
            let after_comma = sep_and_name.skip(1);
            assert(after_comma =~= seq![' '] + events[k - 1]);
            assert(after_comma[0] == ' ');
            assert(after_comma.skip(1) =~= events[k - 1]);
            assert(scan_seq(mid, sep_and_name, infos) == scan_seq(committed, after_comma, infos));
            assert(scan_seq(committed, after_comma, infos) == scan_seq(
                spaced,
                after_comma.skip(1),
                infos,
            ));
            assert(scan_seq(spaced, after_comma.skip(1), infos) == scan_seq(
                spaced,
                events[k - 1],
                infos,
            ));
        }
    }
}

/// Round trip for monologue trees: a single-node tree with a plain author
/// name, plain text lines and allow-listed trigger events prints to source
/// text that parses back to exactly that tree.
#[verifier::rlimit(100)]
pub proof fn lemma_monologue_round_trip(
    author: Seq<char>,
    texts: Seq<Seq<char>>,
    events: Seq<Seq<char>>,
    infos: InfosV,
)
    requires
        plain_text(author),
        texts.len() > 0,
        forall|i: int| 0 <= i < texts.len() ==> plain_text(#[trigger] texts[i]),
        forall|i: int| 0 <= i < events.len() ==> plain_event(#[trigger] events[i])
            && infos.trigger_event.contains(events[i]),
    ensures
        spec_parse(
            spec_print_node(seq![mono_node(author, texts, texts.len() as int, events)], 0, 1),
            infos,
        ) == Ok::<Seq<NodeV>, ErrV>(seq![mono_node(author, texts, texts.len() as int, events)]),
{
    let n = texts.len() as int;
    let node = mono_node(author, texts, n, events);
    let tree = seq![node];
    assert(tree_wf(tree));
    let content = Seq::new(texts.len(), |i: int| ContentV::Text(texts[i]));
    assert(node.content =~~= content);

    reveal_strlit(" ");
    reveal_strlit("\n\n");
    let printed = spec_print_node(tree, 0, 1);
    let header = seq!['#', ' '] + author + seq!['\n', '\n'];
    let lines = spec_lines(content, n);
    let trigger_text = crate::print::spec_trigger_text(node.trigger_event);
    assert(printed =~= header + lines + trigger_text) by {
        assert(repeat_char('#', 0).len() == 0);
        assert(repeat_char('#', 1) =~= seq!['#']);
        assert(" "@ =~= seq![' ']);
        assert("\n\n"@ =~= seq!['\n', '\n']);
        assert(node.children.len() == 0);
        assert(crate::print::spec_print_kids(tree, 0, 0, 2).len() == 0);
    }

    let h0 = init_scan_state();
    lemma_scan_header_and_lines(author, texts, infos);
    let idle_n = idle_state(author, texts, n, Seq::empty(), Seq::empty());
    lemma_scan_seq_append(h0, header + lines, trigger_text, infos);
    assert(header + lines + trigger_text == (header + lines) + trigger_text);

    if events.len() == 0 {
        assert(trigger_text.len() == 0);
        assert(scan_seq(idle_n, trigger_text, infos) == Ok::<ScanState, ErrV>(idle_n));
        assert(printed.last() == '\n') by {
            lemma_lines_end_newline(content, n);
            assert(printed.last() == lines.last());
        }
        assert(idle_n.nodes =~~= tree) by {
            assert(mono_node(author, texts, n, Seq::empty()) =~~= node);
        }
    } else {
        // The trigger line: a blank line, the arrow, the joined names, the
        // final newline committing the last name.
        let m = events.len() as int;
        reveal_strlit("\n-> ");
        reveal_strlit("\n");
        let joined = crate::print::names_joined_spaced(events, m);
        assert(trigger_text =~= seq!['\n', '-', '>', ' '] + joined + seq!['\n']);

        let t0 = trigger_state(author, texts, n, Seq::empty(), Seq::empty(), Seq::empty());
        assert(scan_step(idle_n, '\n', infos) == Ok::<ScanState, ErrV>(idle_n)) by {
            assert(is_ascii_char('\n'));
        }
        let with_content = ScanState { content_phase: true, ..idle_n };
        assert(scan_step(idle_n, '-', infos) == Ok::<ScanState, ErrV>(with_content));
        let with_trigger = ScanState { content_phase: false, trigger_phase: true, ..with_content };
        assert(scan_step(with_content, '>', infos) == Ok::<ScanState, ErrV>(with_trigger));
        let t1 = trigger_state(author, texts, n, Seq::empty(), Seq::empty(), seq![' ']);
        assert(scan_step(with_trigger, ' ', infos) == Ok::<ScanState, ErrV>(t1)) by {
            assert(is_ascii_char(' '));
            assert(Seq::<char>::empty().push(' ') =~= seq![' ']);
            assert(scan_step(with_trigger, ' ', infos)->Ok_0 =~~= t1);
        }
        lemma_scan_joined(author, texts, n, events, m, seq![' '], infos);
        let before_final = trigger_state(
            author,
            texts,
            n,
            events.take(m - 1),
            events[m - 1],
            seq![' '] + repeat_char(' ', m - 1),
        );
        let final_state = ScanState {
            trigger_phase: false,
            ..idle_state(author, texts, n, events, seq![' '] + repeat_char(' ', m - 1))
        };
        assert(scan_step(before_final, '\n', infos) == Ok::<ScanState, ErrV>(final_state)) by {
            assert(infos.trigger_event.contains(events[m - 1]));
            assert(mono_node(author, texts, n, events.take(m - 1)).trigger_event.push(
                events[m - 1],
            ) =~~= events);
            assert(scan_step(before_final, '\n', infos)->Ok_0 =~~= final_state);
        }

        assert(scan_seq(idle_n, trigger_text, infos) == Ok::<ScanState, ErrV>(final_state)) by {
            let r1 = trigger_text.skip(1);
            assert(trigger_text[0] == '\n');
            assert(r1 =~= seq!['-', '>', ' '] + joined + seq!['\n']);
            assert(r1[0] == '-');
            let r2 = r1.skip(1);
            assert(r2 =~= seq!['>', ' '] + joined + seq!['\n']);
            assert(r2[0] == '>');
            let r3 = r2.skip(1);
            assert(r3 =~= seq![' '] + joined + seq!['\n']);
            assert(r3[0] == ' ');
            let r4 = r3.skip(1);
            assert(r4 =~= joined + seq!['\n']);
            lemma_scan_seq_append(t1, joined, seq!['\n'], infos);
            lemma_scan_seq_single(before_final, '\n', infos);
            assert(scan_seq(t1, r4, infos) == Ok::<ScanState, ErrV>(final_state));
            assert(scan_seq(idle_n, trigger_text, infos) == scan_seq(idle_n, r1, infos));
            assert(scan_seq(idle_n, r1, infos) == scan_seq(with_content, r2, infos));
            assert(scan_seq(with_content, r2, infos) == scan_seq(with_trigger, r3, infos));
            assert(scan_seq(with_trigger, r3, infos) == scan_seq(t1, r4, infos));
        }
        assert(printed.last() == '\n') by {
            assert(trigger_text.len() > 0);
            assert(trigger_text.last() == '\n');
            assert(printed.last() == trigger_text.last());
        }
        assert(final_state.nodes =~~= tree);
    }

    lemma_scan_upto_is_scan_seq(printed, printed.len() as int, infos);
    assert(printed.take(printed.len() as int) == printed);
    assert(printed.len() > 0);
}

proof fn lemma_lines_end_newline(content: Seq<ContentV>, n: int)
    requires
        0 < n,
    ensures
        spec_lines(content, n).len() > 0,
        spec_lines(content, n).last() == '\n',
    decreases n,
{
    reveal_strlit("\n");
    let line = spec_line(content[n - 1]);
    assert(line.len() > 0 && line.last() == '\n') by {
        match content[n - 1] {
            ContentV::Text(..) => {},
            ContentV::Choice { .. } => {},
        }
    }
    assert(spec_lines(content, n).last() == line.last());
}

/// Spec: a condition that survives the trip: not empty on both sides, its
/// threshold sorted, its event names nonempty, made of plain characters
/// free of separators, and on the configured allow-list.
pub open spec fn printable_cond(c: Option<CondV>, infos: InfosV) -> bool {
    match c {
        None => true,
        Some(cv) => {
            &&& cv.karma_threshold is Some || (cv.event matches Some(es) && es.len() > 0)
            &&& (cv.karma_threshold matches Some(b) ==> b.0 <= b.1)
            &&& (cv.event matches Some(es) ==> es.len() > 0 && forall|i: int|
                0 <= i < es.len() ==> cond_event_name_ok(#[trigger] es[i])
                    && infos.world_event.contains(es[i]))
        },
    }
}

/// Spec: an event name usable inside a printed condition: nonempty, plain
/// characters, and none of the clause separators.
pub open spec fn cond_event_name_ok(e: Seq<char>) -> bool {
    &&& e.len() > 0
    &&& forall|i: int|
        0 <= i < e.len() ==> plain_char(#[trigger] e[i]) && e[i] != ' ' && e[i] != ','
            && e[i] != ';' && e[i] != ':'
}

/// Spec: the single node of a choice tree: the author and the first `k`
/// texts as choices, each under the matching optional condition.
pub open spec fn choice_node(
    author: Seq<char>,
    texts: Seq<Seq<char>>,
    conds: Seq<Option<CondV>>,
    k: int,
) -> NodeV {
    NodeV {
        content: Seq::new(
            k as nat,
            |i: int| ContentV::Choice { text: texts[i], condition: conds[i] },
        ),
        author: Some(author),
        ..empty_node()
    }
}

/// Spec: the scanner state between lines of the choice node: `k` choices
/// committed; the first `|` switched the node to choice mode.
pub open spec fn choice_idle(
    author: Seq<char>,
    texts: Seq<Seq<char>>,
    conds: Seq<Option<CondV>>,
    k: int,
) -> ScanState {
    ScanState {
        nodes: seq![choice_node(author, texts, conds, k)],
        last_header_numbers: 1,
        choice_mode: k > 0,
        ..init_scan_state()
    }
}

/// Spec: the scanner state inside a choice line before the `|`.
pub open spec fn choice_line_text(
    author: Seq<char>,
    texts: Seq<Seq<char>>,
    conds: Seq<Option<CondV>>,
    k: int,
    acc: Seq<char>,
) -> ScanState {
    ScanState { content_phase: true, save: acc, ..choice_idle(author, texts, conds, k) }
}

/// Spec: the scanner state after the `|`: the text saved, a condition being
/// read; `evp` set once a letter opened an event clause.
pub open spec fn choice_line_cond(
    author: Seq<char>,
    texts: Seq<Seq<char>>,
    conds: Seq<Option<CondV>>,
    k: int,
    saved: Seq<char>,
    evp: bool,
) -> ScanState {
    ScanState {
        condition_phase: true,
        choice_mode: true,
        save: saved,
        event_phase: evp,
        post_colon: evp,
        ..choice_idle(author, texts, conds, k)
    }
}

/// Spec: the scanner state inside a karma clause.
pub open spec fn karma_clause_state(
    author: Seq<char>,
    texts: Seq<Seq<char>>,
    conds: Seq<Option<CondV>>,
    k: int,
    saved: Seq<char>,
    pc: bool,
    buf: Seq<char>,
    first: Option<i32>,
) -> ScanState {
    ScanState {
        condition_phase: true,
        choice_mode: true,
        save: saved,
        karma_phase: true,
        post_colon: pc,
        karma: buf,
        karma_first: first,
        ..choice_idle(author, texts, conds, k)
    }
}

proof fn lemma_scan_plain_choice_save(
    author: Seq<char>,
    texts: Seq<Seq<char>>,
    conds: Seq<Option<CondV>>,
    k: int,
    acc: Seq<char>,
    a: Seq<char>,
    infos: InfosV,
)
    requires
        forall|i: int| 0 <= i < a.len() ==> plain_char(#[trigger] a[i]),
    ensures
        scan_seq(choice_line_text(author, texts, conds, k, acc), a, infos) == Ok::<
            ScanState,
            ErrV,
        >(choice_line_text(author, texts, conds, k, acc + a)),
    decreases a.len(),
{
    if a.len() == 0 {
        assert(acc + a == acc);
    } else {
        let c = a[0];
        assert(plain_char(c));
        assert(scan_step(choice_line_text(author, texts, conds, k, acc), c, infos) == Ok::<
            ScanState,
            ErrV,
        >(choice_line_text(author, texts, conds, k, acc.push(c))));
        lemma_scan_plain_choice_save(author, texts, conds, k, acc.push(c), a.skip(1), infos);
        assert(acc.push(c) + a.skip(1) == acc + a);
    }
}

proof fn lemma_scan_karma_digits(
    author: Seq<char>,
    texts: Seq<Seq<char>>,
    conds: Seq<Option<CondV>>,
    k: int,
    saved: Seq<char>,
    buf: Seq<char>,
    first: Option<i32>,
    a: Seq<char>,
    infos: InfosV,
)
    requires
        forall|i: int|
            0 <= i < a.len() ==> crate::numbers::is_digit(#[trigger] a[i]) || a[i] == '-',
    ensures
        scan_seq(
            karma_clause_state(author, texts, conds, k, saved, false, buf, first),
            a,
            infos,
        ) == Ok::<ScanState, ErrV>(
            karma_clause_state(author, texts, conds, k, saved, false, buf + a, first),
        ),
    decreases a.len(),
{
    if a.len() == 0 {
        assert(buf + a == buf);
    } else {
        let c = a[0];
        assert(crate::numbers::is_digit(c) || c == '-');
        assert(is_ascii_char(c));
        assert(scan_step(
            karma_clause_state(author, texts, conds, k, saved, false, buf, first),
            c,
            infos,
        ) == Ok::<ScanState, ErrV>(
            karma_clause_state(author, texts, conds, k, saved, false, buf.push(c), first),
        ));
        lemma_scan_karma_digits(author, texts, conds, k, saved, buf.push(c), first, a.skip(1), infos);
        assert(buf.push(c) + a.skip(1) == buf + a);
    }
}

proof fn lemma_trim_padded_both(t: Seq<char>)
    requires
        plain_text(t),
    ensures
        strip_leading_spaces(seq![' '] + t + seq![' ']) == t + seq![' '],
        trim_spaces(t + seq![' ']) == t,
{
    let padded = seq![' '] + t + seq![' '];
    assert(padded[0] == ' ');
    assert(padded.skip(1) == t + seq![' ']);
    assert((t + seq![' '])[0] == t[0]);
    assert(strip_leading_spaces(t + seq![' ']) == t + seq![' ']);
    assert((t + seq![' ']).last() == ' ');
    assert((t + seq![' ']).drop_last() == t);
    assert(strip_trailing_spaces(t + seq![' ']) == strip_trailing_spaces(t));
    assert(strip_trailing_spaces(t) == t);
}

proof fn lemma_canonical_karma_value(v: i32, limits: Option<(i32, i32)>)
    ensures
        crate::scan::spec_karma_value(int_string(v as int), limits) == Some(v),
{
    crate::numbers::lemma_int_string_inverse(v);
    let tok = int_string(v as int);
    assert(!crate::scan::is_max_keyword(tok)) by {
        if tok == seq!['M', 'A', 'X'] {
            assert(tok[0] == 'M');
        }
        if tok == seq!['m', 'a', 'x'] {
            assert(tok[0] == 'm');
        }
    }
    assert(!crate::scan::is_min_keyword(tok)) by {
        if tok == seq!['M', 'I', 'N'] {
            assert(tok[0] == 'M');
        }
        if tok == seq!['m', 'i', 'n'] {
            assert(tok[0] == 'm');
        }
    }
    assert(int_string_val(tok) as i32 == v);
}

#[verifier::rlimit(100)]
proof fn lemma_scan_karma_clause(
    author: Seq<char>,
    texts: Seq<Seq<char>>,
    conds: Seq<Option<CondV>>,
    k: int,
    saved: Seq<char>,
    low: i32,
    high: i32,
    infos: InfosV,
)
    requires
        low <= high,
    ensures
        scan_seq(
            choice_line_cond(author, texts, conds, k, saved, false),
            "karma: "@ + int_string(low as int) + ","@ + int_string(high as int) + ";"@,
            infos,
        ) == Ok::<ScanState, ErrV>(
            ScanState {
                cond_karma: Some((low, high)),
                ..choice_line_cond(author, texts, conds, k, saved, false)
            },
        ),
{
    reveal_strlit("karma: ");
    reveal_strlit(",");
    reveal_strlit(";");
    let lo_txt = int_string(low as int);
    let hi_txt = int_string(high as int);
    let clause = "karma: "@ + lo_txt + ","@ + hi_txt + ";"@;
    assert(clause =~= seq!['k', 'a', 'r', 'm', 'a', ':', ' '] + lo_txt + seq![','] + hi_txt
        + seq![';']);

    let c0 = choice_line_cond(author, texts, conds, k, saved, false);
    let kw = karma_clause_state(author, texts, conds, k, saved, true, Seq::empty(), None);
    assert(scan_step(c0, 'k', infos) == Ok::<ScanState, ErrV>(kw)) by {
        assert(is_ascii_char('k'));
        assert(scan_step(c0, 'k', infos)->Ok_0 =~~= kw);
    }
    assert(scan_step(kw, 'a', infos) == Ok::<ScanState, ErrV>(kw)) by {
        assert(is_ascii_char('a'));
    }
    assert(scan_step(kw, 'r', infos) == Ok::<ScanState, ErrV>(kw)) by {
        assert(is_ascii_char('r'));
    }
    assert(scan_step(kw, 'm', infos) == Ok::<ScanState, ErrV>(kw)) by {
        assert(is_ascii_char('m'));
    }
    let opened = karma_clause_state(author, texts, conds, k, saved, false, Seq::empty(), None);
    assert(scan_step(kw, ':', infos) == Ok::<ScanState, ErrV>(opened)) by {
        assert(is_ascii_char(':'));
        assert(scan_step(kw, ':', infos)->Ok_0 =~~= opened);
    }
    assert(scan_step(opened, ' ', infos) == Ok::<ScanState, ErrV>(opened)) by {
        assert(is_ascii_char(' '));
    }
    crate::numbers::lemma_int_string_inverse(low);
    crate::numbers::lemma_int_string_inverse(high);
    lemma_scan_karma_digits(author, texts, conds, k, saved, Seq::empty(), None, lo_txt, infos);
    let lo_read = karma_clause_state(author, texts, conds, k, saved, false, lo_txt, None);
    assert(Seq::<char>::empty() + lo_txt == lo_txt);
    let lo_committed = karma_clause_state(
        author,
        texts,
        conds,
        k,
        saved,
        false,
        Seq::empty(),
        Some(low),
    );
    assert(scan_step(lo_read, ',', infos) == Ok::<ScanState, ErrV>(lo_committed)) by {
        lemma_canonical_karma_value(low, infos.karma_limits);
        assert(scan_step(lo_read, ',', infos)->Ok_0 =~~= lo_committed);
    }
    lemma_scan_karma_digits(author, texts, conds, k, saved, Seq::empty(), Some(low), hi_txt, infos);
    let hi_read = karma_clause_state(author, texts, conds, k, saved, false, hi_txt, Some(low));
    assert(Seq::<char>::empty() + hi_txt == hi_txt);
    let done = ScanState { cond_karma: Some((low, high)), ..c0 };
    assert(scan_step(hi_read, ';', infos) == Ok::<ScanState, ErrV>(done)) by {
        lemma_canonical_karma_value(high, infos.karma_limits);
        assert(crate::scan::ordered_bounds(low, high) == (low, high));
        assert(scan_step(hi_read, ';', infos)->Ok_0 =~~= done);
    }

    // Chain: keyword, colon, space, low bound, comma, high bound, semicolon.
    assert(scan_seq(c0, clause, infos) == Ok::<ScanState, ErrV>(done)) by {
        let w1 = clause.skip(1);
        assert(clause[0] == 'k');
        assert(w1 =~= seq!['a', 'r', 'm', 'a', ':', ' '] + lo_txt + seq![','] + hi_txt
            + seq![';']);
        assert(w1[0] == 'a');
        let w2 = w1.skip(1);
        assert(w2 =~= seq!['r', 'm', 'a', ':', ' '] + lo_txt + seq![','] + hi_txt + seq![';']);
        assert(w2[0] == 'r');
        let w3 = w2.skip(1);
        assert(w3 =~= seq!['m', 'a', ':', ' '] + lo_txt + seq![','] + hi_txt + seq![';']);
        assert(w3[0] == 'm');
        let w4 = w3.skip(1);
        assert(w4 =~= seq!['a', ':', ' '] + lo_txt + seq![','] + hi_txt + seq![';']);
        assert(w4[0] == 'a');
        let w5 = w4.skip(1);
        assert(w5 =~= seq![':', ' '] + lo_txt + seq![','] + hi_txt + seq![';']);
        assert(w5[0] == ':');
        let w6 = w5.skip(1);
        assert(w6 =~= seq![' '] + lo_txt + seq![','] + hi_txt + seq![';']);
        assert(w6[0] == ' ');
        let w7 = w6.skip(1);
        assert(w7 =~= lo_txt + (seq![','] + hi_txt + seq![';']));
        lemma_scan_seq_append(opened, lo_txt, seq![','] + hi_txt + seq![';'], infos);
        let w8 = seq![','] + hi_txt + seq![';'];
        assert(w8[0] == ',');
        let w9 = w8.skip(1);
        assert(w9 =~= hi_txt + seq![';']);
        lemma_scan_seq_append(lo_committed, hi_txt, seq![';'], infos);
        lemma_scan_seq_single(hi_read, ';', infos);
        assert(scan_seq(lo_committed, w9, infos) == Ok::<ScanState, ErrV>(done));
        assert(scan_seq(opened, w7, infos) == Ok::<ScanState, ErrV>(done));
        assert(scan_seq(opened, w6.skip(1), infos) == Ok::<ScanState, ErrV>(done));
        assert(scan_seq(opened, w6, infos) == Ok::<ScanState, ErrV>(done));
        assert(scan_seq(kw, w5, infos) == Ok::<ScanState, ErrV>(done));
        assert(scan_seq(kw, w4, infos) == Ok::<ScanState, ErrV>(done));
        assert(scan_seq(kw, w3, infos) == Ok::<ScanState, ErrV>(done));
        assert(scan_seq(kw, w2, infos) == Ok::<ScanState, ErrV>(done));
        assert(scan_seq(kw, w1, infos) == Ok::<ScanState, ErrV>(done));
    }
}

/// Spec: the event names committed so far: none at all before the first.
pub open spec fn opt_take(es: Seq<Seq<char>>, j: int) -> Option<Seq<Seq<char>>> {
    if j <= 0 {
        None
    } else {
        Some(es.take(j))
    }
}

/// Spec: the scanner state inside an event clause of a condition: the karma
/// threshold already read, the names committed so far, one pending.
pub open spec fn event_clause_state(
    author: Seq<char>,
    texts: Seq<Seq<char>>,
    conds: Seq<Option<CondV>>,
    k: int,
    saved: Seq<char>,
    kth: Option<(i32, i32)>,
    pc: bool,
    acc: Seq<char>,
    committed: Option<Seq<Seq<char>>>,
) -> ScanState {
    ScanState {
        condition_phase: true,
        choice_mode: true,
        save: saved,
        cond_karma: kth,
        event_phase: true,
        post_colon: pc,
        event: acc,
        cond_event: committed,
        ..choice_idle(author, texts, conds, k)
    }
}

proof fn lemma_scan_cond_event_name(
    author: Seq<char>,
    texts: Seq<Seq<char>>,
    conds: Seq<Option<CondV>>,
    k: int,
    saved: Seq<char>,
    kth: Option<(i32, i32)>,
    acc: Seq<char>,
    committed: Option<Seq<Seq<char>>>,
    a: Seq<char>,
    infos: InfosV,
)
    requires
        forall|i: int|
            0 <= i < a.len() ==> plain_char(#[trigger] a[i]) && a[i] != ' ' && a[i] != ','
                && a[i] != ';' && a[i] != ':',
    ensures
        scan_seq(
            event_clause_state(author, texts, conds, k, saved, kth, false, acc, committed),
            a,
            infos,
        ) == Ok::<ScanState, ErrV>(
            event_clause_state(author, texts, conds, k, saved, kth, false, acc + a, committed),
        ),
    decreases a.len(),
{
    if a.len() == 0 {
        assert(acc + a == acc);
    } else {
        let c = a[0];
        assert(plain_char(c) && c != ' ' && c != ',' && c != ';' && c != ':');
        assert(scan_step(
            event_clause_state(author, texts, conds, k, saved, kth, false, acc, committed),
            c,
            infos,
        ) == Ok::<ScanState, ErrV>(
            event_clause_state(author, texts, conds, k, saved, kth, false, acc.push(c), committed),
        ));
        lemma_scan_cond_event_name(
            author,
            texts,
            conds,
            k,
            saved,
            kth,
            acc.push(c),
            committed,
            a.skip(1),
            infos,
        );
        assert(acc.push(c) + a.skip(1) == acc + a);
    }
}

proof fn lemma_scan_cond_event_joined(
    author: Seq<char>,
    texts: Seq<Seq<char>>,
    conds: Seq<Option<CondV>>,
    k: int,
    saved: Seq<char>,
    kth: Option<(i32, i32)>,
    es: Seq<Seq<char>>,
    j: int,
    infos: InfosV,
)
    requires
        1 <= j <= es.len(),
        forall|i: int| 0 <= i < es.len() ==> cond_event_name_ok(#[trigger] es[i])
            && infos.world_event.contains(es[i]),
    ensures
        scan_seq(
            event_clause_state(author, texts, conds, k, saved, kth, false, Seq::empty(), None),
            crate::print::names_joined(es, j),
            infos,
        ) == Ok::<ScanState, ErrV>(
            event_clause_state(
                author,
                texts,
                conds,
                k,
                saved,
                kth,
                false,
                es[j - 1],
                opt_take(es, j - 1),
            ),
        ),
    decreases j,
{
    let start = event_clause_state(author, texts, conds, k, saved, kth, false, Seq::empty(), None);
    if j == 1 {
        assert(crate::print::names_joined(es, 1) == es[0]);
        lemma_scan_cond_event_name(
            author,
            texts,
            conds,
            k,
            saved,
            kth,
            Seq::empty(),
            None,
            es[0],
            infos,
        );
        assert(Seq::<char>::empty() + es[0] == es[0]);
    } else {
        reveal_strlit(",");
        lemma_scan_cond_event_joined(author, texts, conds, k, saved, kth, es, j - 1, infos);
        let joined_prev = crate::print::names_joined(es, j - 1);
        let sep_and_name = ","@ + es[j - 1];
        assert(crate::print::names_joined(es, j) == joined_prev + sep_and_name);
        lemma_scan_seq_append(start, joined_prev, sep_and_name, infos);
        let mid = event_clause_state(
            author,
            texts,
            conds,
            k,
            saved,
            kth,
            false,
            es[j - 2],
            opt_take(es, j - 2),
        );
        let committed = event_clause_state(
            author,
            texts,
            conds,
            k,
            saved,
            kth,
            false,
            Seq::empty(),
            opt_take(es, j - 1),
        );
        assert(scan_step(mid, ',', infos) == Ok::<ScanState, ErrV>(committed)) by {
            assert(infos.world_event.contains(es[j - 2]));
            if j == 2 {
                assert(crate::scan::spec_add_event(None, es[0], infos.world_event)
                    matches Some(one) && one =~~= es.take(1));
            } else {
                assert(opt_take(es, j - 2) matches Some(sofar) && sofar.push(es[j - 2]) =~~= es.take(
                    j - 1,
                ));
            }
            assert(scan_step(mid, ',', infos)->Ok_0 =~~= committed);
        }
        lemma_scan_cond_event_name(
            author,
            texts,
            conds,
            k,
            saved,
            kth,
            Seq::empty(),
            opt_take(es, j - 1),
            es[j - 1],
            infos,
        );
        assert(Seq::<char>::empty() + es[j - 1] == es[j - 1]);
        assert(scan_seq(mid, sep_and_name, infos) == Ok::<ScanState, ErrV>(
            event_clause_state(
                author,
                texts,
                conds,
                k,
                saved,
                kth,
                false,
                es[j - 1],
                opt_take(es, j - 1),
            ),
        )) by {
            assert(sep_and_name[0] == ',');
            assert(sep_and_name.skip(1) =~= es[j - 1]);
            assert(scan_seq(mid, sep_and_name, infos) == scan_seq(
                committed,
                sep_and_name.skip(1),
                infos,
            ));
        }
    }
}

#[verifier::rlimit(100)]
proof fn lemma_scan_event_clause(
    author: Seq<char>,
    texts: Seq<Seq<char>>,
    conds: Seq<Option<CondV>>,
    k: int,
    saved: Seq<char>,
    kth: Option<(i32, i32)>,
    es: Seq<Seq<char>>,
    infos: InfosV,
)
    requires
        es.len() > 0,
        forall|i: int| 0 <= i < es.len() ==> cond_event_name_ok(#[trigger] es[i])
            && infos.world_event.contains(es[i]),
    ensures
        scan_seq(
            ScanState {
                cond_karma: kth,
                ..choice_line_cond(author, texts, conds, k, saved, false)
            },
            "event: "@ + crate::print::names_joined(es, es.len() as int) + ";"@,
            infos,
        ) == Ok::<ScanState, ErrV>(
            ScanState {
                cond_karma: kth,
                cond_event: Some(es),
                ..choice_line_cond(author, texts, conds, k, saved, false)
            },
        ),
{
    reveal_strlit("event: ");
    reveal_strlit(";");
    let n = es.len() as int;
    let joined = crate::print::names_joined(es, n);
    let clause = "event: "@ + joined + ";"@;
    assert(clause =~= seq!['e', 'v', 'e', 'n', 't', ':', ' '] + joined + seq![';']);

    let e0 = ScanState { cond_karma: kth, ..choice_line_cond(author, texts, conds, k, saved, false) };
    let kw = event_clause_state(author, texts, conds, k, saved, kth, true, Seq::empty(), None);
    assert(scan_step(e0, 'e', infos) == Ok::<ScanState, ErrV>(kw)) by {
        assert(is_ascii_char('e'));
        assert(scan_step(e0, 'e', infos)->Ok_0 =~~= kw);
    }
    assert(scan_step(kw, 'v', infos) == Ok::<ScanState, ErrV>(kw)) by {
        assert(is_ascii_char('v'));
    }
    assert(scan_step(kw, 'e', infos) == Ok::<ScanState, ErrV>(kw)) by {
        assert(is_ascii_char('e'));
    }
    assert(scan_step(kw, 'n', infos) == Ok::<ScanState, ErrV>(kw)) by {
        assert(is_ascii_char('n'));
    }
    assert(scan_step(kw, 't', infos) == Ok::<ScanState, ErrV>(kw)) by {
        assert(is_ascii_char('t'));
    }
    let opened = event_clause_state(author, texts, conds, k, saved, kth, false, Seq::empty(), None);
    assert(scan_step(kw, ':', infos) == Ok::<ScanState, ErrV>(opened)) by {
        assert(is_ascii_char(':'));
        assert(scan_step(kw, ':', infos)->Ok_0 =~~= opened);
    }
    assert(scan_step(opened, ' ', infos) == Ok::<ScanState, ErrV>(opened)) by {
        assert(is_ascii_char(' '));
    }
    lemma_scan_cond_event_joined(author, texts, conds, k, saved, kth, es, n, infos);
    let last_pending = event_clause_state(
        author,
        texts,
        conds,
        k,
        saved,
        kth,
        false,
        es[n - 1],
        opt_take(es, n - 1),
    );
    let done = ScanState {
        cond_karma: kth,
        cond_event: Some(es),
        ..choice_line_cond(author, texts, conds, k, saved, false)
    };
    assert(scan_step(last_pending, ';', infos) == Ok::<ScanState, ErrV>(done)) by {
        assert(infos.world_event.contains(es[n - 1]));
        if n == 1 {
            assert(crate::scan::spec_add_event(None, es[0], infos.world_event) matches Some(one)
                && one =~~= es);
        } else {
            assert(opt_take(es, n - 1) matches Some(sofar) && sofar.push(es[n - 1]) =~~= es);
        }
        assert(scan_step(last_pending, ';', infos)->Ok_0 =~~= done);
    }

    // Chain the keyword, the colon and space, the names, the semicolon.
    assert(scan_seq(e0, clause, infos) == Ok::<ScanState, ErrV>(done)) by {
        assert(clause[0] == 'e');
        let w1 = clause.skip(1);
        assert(w1 =~= seq!['v', 'e', 'n', 't', ':', ' '] + joined + seq![';']);
        assert(w1[0] == 'v');
        let w2 = w1.skip(1);
        assert(w2 =~= seq!['e', 'n', 't', ':', ' '] + joined + seq![';']);
        assert(w2[0] == 'e');
        let w3 = w2.skip(1);
        assert(w3 =~= seq!['n', 't', ':', ' '] + joined + seq![';']);
        assert(w3[0] == 'n');
        let w4 = w3.skip(1);
        assert(w4 =~= seq!['t', ':', ' '] + joined + seq![';']);
        assert(w4[0] == 't');
        let w5 = w4.skip(1);
        assert(w5 =~= seq![':', ' '] + joined + seq![';']);
        assert(w5[0] == ':');
        let w6 = w5.skip(1);
        assert(w6 =~= seq![' '] + joined + seq![';']);
        assert(w6[0] == ' ');
        let w7 = w6.skip(1);
        assert(w7 =~= joined + seq![';']);
        lemma_scan_seq_append(opened, joined, seq![';'], infos);
        lemma_scan_seq_single(last_pending, ';', infos);
        assert(scan_seq(opened, w7, infos) == Ok::<ScanState, ErrV>(done));
        assert(scan_seq(opened, w6, infos) == Ok::<ScanState, ErrV>(done));
        assert(scan_seq(kw, w5, infos) == Ok::<ScanState, ErrV>(done));
        assert(scan_seq(kw, w4, infos) == Ok::<ScanState, ErrV>(done));
        assert(scan_seq(kw, w3, infos) == Ok::<ScanState, ErrV>(done));
        assert(scan_seq(kw, w2, infos) == Ok::<ScanState, ErrV>(done));
        assert(scan_seq(kw, w1, infos) == Ok::<ScanState, ErrV>(done));
    }
}

#[verifier::rlimit(100)]
proof fn lemma_scan_cond_text(
    author: Seq<char>,
    texts: Seq<Seq<char>>,
    conds: Seq<Option<CondV>>,
    k: int,
    saved: Seq<char>,
    cv: CondV,
    infos: InfosV,
)
    requires
        printable_cond(Some(cv), infos),
    ensures
        scan_seq(
            choice_line_cond(author, texts, conds, k, saved, false),
            spec_cond_text(cv),
            infos,
        ) == Ok::<ScanState, ErrV>(
            ScanState {
                cond_karma: cv.karma_threshold,
                cond_event: cv.event,
                ..choice_line_cond(author, texts, conds, k, saved, false)
            },
        ),
{
    reveal_strlit("karma: ");
    reveal_strlit("event: ");
    reveal_strlit(" ");
    let c0 = choice_line_cond(author, texts, conds, k, saved, false);
    match cv.karma_threshold {
        Some(bounds) => {
            let karma_txt = "karma: "@ + int_string(bounds.0 as int) + ","@ + int_string(
                bounds.1 as int,
            ) + ";"@;
            assert(karma_txt.len() > 0);
            lemma_scan_karma_clause(author, texts, conds, k, saved, bounds.0, bounds.1, infos);
            let after_karma = ScanState { cond_karma: Some((bounds.0, bounds.1)), ..c0 };
            match cv.event {
                Some(es) => {
                    let event_txt = "event: "@ + crate::print::names_joined(
                        es,
                        es.len() as int,
                    ) + ";"@;
                    assert(event_txt.len() > 0);
                    assert(spec_cond_text(cv) == karma_txt + " "@ + event_txt);
                    assert(scan_step(after_karma, ' ', infos) == Ok::<ScanState, ErrV>(
                        after_karma,
                    )) by {
                        assert(is_ascii_char(' '));
                    }
                    lemma_scan_event_clause(
                        author,
                        texts,
                        conds,
                        k,
                        saved,
                        Some((bounds.0, bounds.1)),
                        es,
                        infos,
                    );
                    lemma_scan_seq_append(c0, karma_txt, " "@ + event_txt, infos);
                    assert(scan_seq(after_karma, " "@ + event_txt, infos) == Ok::<
                        ScanState,
                        ErrV,
                    >(
                        ScanState { cond_karma: cv.karma_threshold, cond_event: cv.event, ..c0 },
                    )) by {
                        let w = " "@ + event_txt;
                        assert(" "@ =~= seq![' ']);
                        assert(w[0] == ' ');
                        assert(w.skip(1) =~= event_txt);
                        assert(scan_seq(after_karma, w, infos) == scan_seq(
                            after_karma,
                            w.skip(1),
                            infos,
                        ));
                    }
                    assert(spec_cond_text(cv) =~= karma_txt + (" "@ + event_txt));
                },
                None => {
                    assert(spec_cond_text(cv) =~= karma_txt);
                },
            }
        },
        None => {
            let es = cv.event->Some_0;
            assert(cv.event is Some && es.len() > 0);
            let event_txt = "event: "@ + crate::print::names_joined(es, es.len() as int) + ";"@;
            assert(spec_cond_text(cv) =~= event_txt);
            lemma_scan_event_clause(author, texts, conds, k, saved, None, es, infos);
        },
    }
}

#[verifier::rlimit(100)]
proof fn lemma_scan_one_choice_line(
    author: Seq<char>,
    texts: Seq<Seq<char>>,
    conds: Seq<Option<CondV>>,
    k: int,
    infos: InfosV,
)
    requires
        0 <= k < texts.len(),
        texts.len() == conds.len(),
        plain_text(texts[k]),
        printable_cond(conds[k], infos),
    ensures
        scan_seq(
            choice_idle(author, texts, conds, k),
            spec_line(ContentV::Choice { text: texts[k], condition: conds[k] }),
            infos,
        ) == Ok::<ScanState, ErrV>(choice_idle(author, texts, conds, k + 1)),
{
    let t = texts[k];
    let line = spec_line(ContentV::Choice { text: t, condition: conds[k] });
    reveal_strlit("- ");
    reveal_strlit(" | ");
    reveal_strlit("\n");

    let s0 = choice_idle(author, texts, conds, k);
    let done = choice_idle(author, texts, conds, k + 1);
    assert(scan_step(s0, '-', infos) == Ok::<ScanState, ErrV>(
        choice_line_text(author, texts, conds, k, Seq::empty()),
    )) by {
        assert(scan_step(s0, '-', infos)->Ok_0 =~~= choice_line_text(
            author,
            texts,
            conds,
            k,
            Seq::empty(),
        ));
    }
    let s1 = choice_line_text(author, texts, conds, k, Seq::empty());
    assert(scan_step(s1, ' ', infos) == Ok::<ScanState, ErrV>(
        choice_line_text(author, texts, conds, k, seq![' ']),
    )) by {
        assert(Seq::<char>::empty().push(' ') =~= seq![' ']);
        assert(is_ascii_char(' '));
    }
    let s2 = choice_line_text(author, texts, conds, k, seq![' ']);
    lemma_scan_plain_choice_save(author, texts, conds, k, seq![' '], t, infos);
    let s3 = choice_line_text(author, texts, conds, k, seq![' '] + t);
    lemma_trim_padded_both(t);
    let s4 = choice_line_text(author, texts, conds, k, seq![' '] + t + seq![' ']);
    assert(scan_step(s3, ' ', infos) == Ok::<ScanState, ErrV>(s4)) by {
        assert(is_ascii_char(' '));
        assert((seq![' '] + t).push(' ') =~= seq![' '] + t + seq![' ']);
    }
    let s5 = choice_line_cond(author, texts, conds, k, t + seq![' '], false);
    assert(scan_step(s4, '|', infos) == Ok::<ScanState, ErrV>(s5)) by {
        assert(scan_step(s4, '|', infos)->Ok_0 =~~= s5);
    }
    assert(scan_step(s5, ' ', infos) == Ok::<ScanState, ErrV>(s5)) by {
        assert(is_ascii_char(' '));
    }

    // After the bar: the condition text, then the newline commits the line.
    let cond_txt = match conds[k] {
        None => "None"@,
        Some(cv) => spec_cond_text(cv),
    };
    let before_newline = match conds[k] {
        None => choice_line_cond(author, texts, conds, k, t + seq![' '], true),
        Some(cv) => ScanState { cond_karma: cv.karma_threshold, cond_event: cv.event, ..s5 },
    };
    assert(scan_seq(s5, cond_txt, infos) == Ok::<ScanState, ErrV>(before_newline)) by {
        match conds[k] {
            None => {
                reveal_strlit("None");
                assert(cond_txt =~= seq!['N', 'o', 'n', 'e']);
                assert(scan_step(s5, 'N', infos) == Ok::<ScanState, ErrV>(s5)) by {
                    assert(is_ascii_char('N'));
                }
                assert(scan_step(s5, 'o', infos) == Ok::<ScanState, ErrV>(s5)) by {
                    assert(is_ascii_char('o'));
                }
                assert(scan_step(s5, 'n', infos) == Ok::<ScanState, ErrV>(s5)) by {
                    assert(is_ascii_char('n'));
                }
                assert(scan_step(s5, 'e', infos) == Ok::<ScanState, ErrV>(before_newline)) by {
                    assert(is_ascii_char('e'));
                }
                let u1 = seq!['o', 'n', 'e'];
                let u2 = seq!['n', 'e'];
                let u3 = seq!['e'];
                assert(cond_txt[0] == 'N' && cond_txt.skip(1) =~= u1);
                assert(u1[0] == 'o' && u1.skip(1) =~= u2);
                assert(u2[0] == 'n' && u2.skip(1) =~= u3);
                lemma_scan_seq_single(s5, 'e', infos);
                assert(scan_seq(s5, u3, infos) == Ok::<ScanState, ErrV>(before_newline));
                assert(scan_seq(s5, u2, infos) == Ok::<ScanState, ErrV>(before_newline));
                assert(scan_seq(s5, u1, infos) == Ok::<ScanState, ErrV>(before_newline));
            },
            Some(cv) => {
                lemma_scan_cond_text(author, texts, conds, k, t + seq![' '], cv, infos);
            },
        }
    }
    let commit = scan_step(before_newline, '\n', infos);
    assert(commit is Ok);
    assert(commit->Ok_0 =~~= done) by {
        match conds[k] {
            None => {},
            Some(cv) => {
                assert(!(cv.karma_threshold is None && cv.event is None));
            },
        }
        assert(commit->Ok_0.nodes =~~= seq![choice_node(author, texts, conds, k + 1)]) by {
            assert(commit->Ok_0.nodes[0].content =~~= choice_node(
                author,
                texts,
                conds,
                k,
            ).content.push(ContentV::Choice { text: t, condition: conds[k] }));
            assert(choice_node(author, texts, conds, k).content.push(
                ContentV::Choice { text: t, condition: conds[k] },
            ) =~~= choice_node(author, texts, conds, k + 1).content);
        }
    }

    // Chain the whole line.
    assert(line =~= (seq!['-', ' '] + t + seq![' ', '|', ' ']) + cond_txt + seq!['\n']);
    assert(scan_seq(s0, line, infos) == Ok::<ScanState, ErrV>(done)) by {
        let prefix = seq!['-', ' '] + t + seq![' ', '|', ' '];
        assert(line =~= prefix + (cond_txt + seq!['\n']));
        lemma_scan_seq_append(s0, prefix, cond_txt + seq!['\n'], infos);
        assert(scan_seq(s0, prefix, infos) == Ok::<ScanState, ErrV>(s5)) by {
            assert(prefix[0] == '-');
            let r1 = prefix.skip(1);
            assert(r1 =~= seq![' '] + t + seq![' ', '|', ' ']);
            assert(r1[0] == ' ');
            let r2 = r1.skip(1);
            assert(r2 =~= t + seq![' ', '|', ' ']);
            lemma_scan_seq_append(s2, t, seq![' ', '|', ' '], infos);
            assert(scan_seq(s3, seq![' ', '|', ' '], infos) == Ok::<ScanState, ErrV>(s5)) by {
                let u1 = seq![' ', '|', ' '];
                assert(u1[0] == ' ' && u1.skip(1) =~= seq!['|', ' ']);
                let u2 = seq!['|', ' '];
                assert(u2[0] == '|' && u2.skip(1) =~= seq![' ']);
                lemma_scan_seq_single(s5, ' ', infos);
                assert(scan_seq(s4, u2, infos) == Ok::<ScanState, ErrV>(s5));
            }
            assert(scan_seq(s2, r2, infos) == Ok::<ScanState, ErrV>(s5));
            assert(scan_seq(s1, r1, infos) == Ok::<ScanState, ErrV>(s5));
        }
        lemma_scan_seq_append(s5, cond_txt, seq!['\n'], infos);
        lemma_scan_seq_single(before_newline, '\n', infos);
        assert(scan_seq(s5, cond_txt + seq!['\n'], infos) == Ok::<ScanState, ErrV>(done));
        assert(scan_seq(s0, line, infos) == scan_seq(s0, prefix + (cond_txt + seq!['\n']), infos));
    }
}

proof fn lemma_scan_choice_lines(
    author: Seq<char>,
    texts: Seq<Seq<char>>,
    conds: Seq<Option<CondV>>,
    n: int,
    infos: InfosV,
)
    requires
        0 <= n <= texts.len(),
        texts.len() == conds.len(),
        forall|i: int| 0 <= i < texts.len() ==> plain_text(#[trigger] texts[i]),
        forall|i: int| 0 <= i < conds.len() ==> printable_cond(#[trigger] conds[i], infos),
    ensures
        scan_seq(
            choice_idle(author, texts, conds, 0),
            spec_lines(
                Seq::new(
                    texts.len(),
                    |i: int| ContentV::Choice { text: texts[i], condition: conds[i] },
                ),
                n,
            ),
            infos,
        ) == Ok::<ScanState, ErrV>(choice_idle(author, texts, conds, n)),
    decreases n,
{
    let content = Seq::new(
        texts.len(),
        |i: int| ContentV::Choice { text: texts[i], condition: conds[i] },
    );
    if n == 0 {
        assert(spec_lines(content, 0).len() == 0);
    } else {
        lemma_scan_choice_lines(author, texts, conds, n - 1, infos);
        lemma_scan_seq_append(
            choice_idle(author, texts, conds, 0),
            spec_lines(content, n - 1),
            spec_line(content[n - 1]),
            infos,
        );
        assert(content[n - 1] == ContentV::Choice {
            text: texts[n - 1],
            condition: conds[n - 1],
        });
        lemma_scan_one_choice_line(author, texts, conds, n - 1, infos);
    }
}

/// Round trip for choice trees: a single-node tree with a plain author name
/// and plain choice lines, each gated by nothing or by a printable condition
/// (sorted karma threshold, allow-listed event names), prints to source text
/// that parses back to exactly that tree.
#[verifier::rlimit(100)]
pub proof fn lemma_choice_round_trip(
    author: Seq<char>,
    texts: Seq<Seq<char>>,
    conds: Seq<Option<CondV>>,
    infos: InfosV,
)
    requires
        plain_text(author),
        texts.len() > 0,
        texts.len() == conds.len(),
        forall|i: int| 0 <= i < texts.len() ==> plain_text(#[trigger] texts[i]),
        forall|i: int| 0 <= i < conds.len() ==> printable_cond(#[trigger] conds[i], infos),
    ensures
        spec_parse(
            spec_print_node(seq![choice_node(author, texts, conds, texts.len() as int)], 0, 1),
            infos,
        ) == Ok::<Seq<NodeV>, ErrV>(seq![choice_node(author, texts, conds, texts.len() as int)]),
{
    let n = texts.len() as int;
    let node = choice_node(author, texts, conds, n);
    let tree = seq![node];
    assert(tree_wf(tree));
    let content = Seq::new(
        texts.len(),
        |i: int| ContentV::Choice { text: texts[i], condition: conds[i] },
    );
    assert(node.content =~~= content);

    reveal_strlit(" ");
    reveal_strlit("\n\n");
    let printed = spec_print_node(tree, 0, 1);
    let header = seq!['#', ' '] + author + seq!['\n', '\n'];
    let lines = spec_lines(content, n);
    assert(printed =~= header + lines) by {
        assert(repeat_char('#', 0).len() == 0);
        assert(repeat_char('#', 1) =~= seq!['#']);
        assert(" "@ =~= seq![' ']);
        assert("\n\n"@ =~= seq!['\n', '\n']);
        assert(node.children.len() == 0);
        assert(node.trigger_event.len() == 0);
        assert(crate::print::spec_trigger_text(node.trigger_event).len() == 0);
        assert(crate::print::spec_print_kids(tree, 0, 0, 2).len() == 0);
    }

    lemma_scan_header(author, infos);
    assert(start_idle(author) =~~= choice_idle(author, texts, conds, 0)) by {
        assert(started_node(author) =~~= choice_node(author, texts, conds, 0));
    }
    lemma_scan_choice_lines(author, texts, conds, n, infos);
    lemma_scan_seq_append(init_scan_state(), header, lines, infos);
    assert(scan_seq(init_scan_state(), printed, infos) == Ok::<ScanState, ErrV>(
        choice_idle(author, texts, conds, n),
    ));

    assert(printed.len() > 0);
    assert(printed.last() == '\n') by {
        lemma_lines_end_newline(content, n);
        assert(printed.last() == lines.last());
    }
    lemma_scan_upto_is_scan_seq(printed, printed.len() as int, infos);
    assert(printed.take(printed.len() as int) == printed);
    assert(choice_idle(author, texts, conds, n).nodes =~~= tree);
}

} // verus!

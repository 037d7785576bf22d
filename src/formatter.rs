use vstd::prelude::*;
use vstd::string::*;
use crate::cli::Cli;

verus! {

/// The lines of `s` as splitting at every `'\n'` gives them: `k` line breaks give
/// `k + 1` lines, some of which may be empty.
pub open spec fn lines_of(s: Seq<char>) -> Seq<Seq<char>>
    decreases s.len(),
{
    if s.len() == 0 {
        seq![Seq::empty()]
    } else {
        let prev = lines_of(s.drop_last());
        if s.last() == '\n' {
            prev.push(Seq::empty())
        } else {
            prev.update(prev.len() - 1, prev.last().push(s.last()))
        }
    }
}

/// The lines of `ls` that are not empty, in their order.
pub open spec fn non_empty(ls: Seq<Seq<char>>) -> Seq<Seq<char>>
    decreases ls.len(),
{
    if ls.len() == 0 {
        ls
    } else if ls.last().len() > 0 {
        non_empty(ls.drop_last()).push(ls.last())
    } else {
        non_empty(ls.drop_last())
    }
}

/// The non-empty lines of all bodies: body after body, line after line.
pub open spec fn kept_lines(bodies: Seq<Seq<char>>) -> Seq<Seq<char>>
    decreases bodies.len(),
{
    if bodies.len() == 0 {
        Seq::empty()
    } else {
        kept_lines(bodies.drop_last()) + non_empty(lines_of(bodies.last()))
    }
}

/// A line that starts with the comment marker is a section heading.
pub open spec fn is_heading(line: Seq<char>) -> bool {
    line.len() > 0 && line[0] == '#'
}

/// One kept line as laid out: a heading gets a line break before it, a command gets one
/// before and one after it.
pub open spec fn block(line: Seq<char>) -> Seq<char> {
    if is_heading(line) {
        seq!['\n'] + line
    } else {
        seq!['\n'] + line + seq!['\n']
    }
}

/// The lines laid out one after another: the first line as it is, with no line break
/// before or after it, and each later line as its block.
pub open spec fn layout(lines: Seq<Seq<char>>) -> Seq<char>
    decreases lines.len(),
{
    if lines.len() == 0 {
        Seq::empty()
    } else if lines.len() == 1 {
        lines[0]
    } else {
        layout(lines.drop_last()) + block(lines.last())
    }
}

/// The document for `bodies`: the layout of all kept lines.
pub open spec fn document(bodies: Seq<Seq<char>>) -> Seq<char> {
    layout(kept_lines(bodies))
}

/// The texts of a list of strings.
pub open spec fn bodies_of(list: Seq<String>) -> Seq<Seq<char>> {
    list.map_values(|s: String| s@)
}

proof fn lemma_lines_of_len(s: Seq<char>)
    ensures
        lines_of(s).len() >= 1,
    decreases s.len(),
{
    if s.len() > 0 {
        lemma_lines_of_len(s.drop_last());
    }
}

/// The document depends on the bodies alone: equal bodies give the same document, in
/// every call.
pub proof fn lemma_format_is_pure(a: Seq<Seq<char>>, b: Seq<Seq<char>>)
    requires
        a == b,
    ensures
        document(a) == document(b),
{
}

/// A line holds no line break.
pub open spec fn single_line(l: Seq<char>) -> bool {
    forall|m: int| 0 <= m < l.len() ==> l[m] != '\n'
}

/// No line of `d` is empty: it does not start with a line break, and no line break
/// follows another.
pub open spec fn no_empty_line(d: Seq<char>) -> bool {
    forall|m: int| 0 <= m < d.len() && #[trigger] d[m] == '\n' ==> m > 0 && d[m - 1] != '\n'
}

/// No line break directly follows another.
pub open spec fn no_double_break(d: Seq<char>) -> bool {
    forall|m: int| 1 <= m < d.len() && #[trigger] d[m] == '\n' ==> d[m - 1] != '\n'
}

proof fn lemma_lines_single(s: Seq<char>)
    ensures
        forall|k: int| 0 <= k < lines_of(s).len() ==> single_line(#[trigger] lines_of(s)[k]),
    decreases s.len(),
{
    if s.len() > 0 {
        lemma_lines_single(s.drop_last());
        lemma_lines_of_len(s.drop_last());
        let prev = lines_of(s.drop_last());
        if s.last() != '\n' {
            assert(single_line(prev[prev.len() - 1]));
            assert(single_line(prev.last().push(s.last())));
        }
    }
}

proof fn lemma_non_empty_lines(ls: Seq<Seq<char>>)
    requires
        forall|k: int| 0 <= k < ls.len() ==> single_line(#[trigger] ls[k]),
    ensures
        forall|k: int|
            0 <= k < non_empty(ls).len() ==> (#[trigger] non_empty(ls)[k]).len() > 0
                && single_line(non_empty(ls)[k]),
    decreases ls.len(),
{
    if ls.len() > 0 {
        let prev = ls.drop_last();
        assert forall|k: int| 0 <= k < prev.len() implies single_line(#[trigger] prev[k]) by {
            assert(prev[k] == ls[k]);
        }
        lemma_non_empty_lines(prev);
        assert(single_line(ls[ls.len() - 1]));
        let rest = non_empty(prev);
        if ls.last().len() > 0 {
            assert forall|k: int| 0 <= k < rest.len() + 1 implies (#[trigger] rest.push(
                ls.last(),
            )[k]).len() > 0 && single_line(rest.push(ls.last())[k]) by {
                if k < rest.len() {
                    assert(rest.push(ls.last())[k] == rest[k]);
                }
            }
        }
    }
}

/// Every line that reaches a document is non-empty and holds no line break: empty lines
/// of the bodies are dropped and contribute nothing.
pub proof fn lemma_kept_lines_non_empty(bodies: Seq<Seq<char>>)
    ensures
        forall|k: int|
            0 <= k < kept_lines(bodies).len() ==> (#[trigger] kept_lines(bodies)[k]).len() > 0
                && single_line(kept_lines(bodies)[k]),
    decreases bodies.len(),
{
    if bodies.len() > 0 {
        lemma_kept_lines_non_empty(bodies.drop_last());
        lemma_lines_single(bodies.last());
        lemma_non_empty_lines(lines_of(bodies.last()));
        let a = kept_lines(bodies.drop_last());
        let b = non_empty(lines_of(bodies.last()));
        assert forall|k: int| 0 <= k < (a + b).len() implies (#[trigger] (a + b)[k]).len() > 0
            && single_line((a + b)[k]) by {
            if k < a.len() {
                assert(a[k] == (a + b)[k]);
            } else {
                assert(b[k - a.len()] == (a + b)[k]);
            }
        }
    }
}

proof fn lemma_push_block(d: Seq<char>, l: Seq<char>)
    requires
        l.len() > 0,
        single_line(l),
        no_double_break(d),
        d.len() == 0 || d.last() != '\n',
    ensures
        no_double_break(d + block(l)),
        is_heading(l) ==> (d + block(l)).last() != '\n',
{
    let e = d + block(l);
    let n = d.len();
    assert forall|m: int| 1 <= m < e.len() && #[trigger] e[m] == '\n' implies e[m - 1] != '\n' by {
        if m < n {
            assert(e[m] == d[m] && e[m - 1] == d[m - 1]);
        } else if m == n {
            assert(e[m - 1] == d[m - 1]);
        } else if m < n + 1 + l.len() {
            assert(e[m] == l[m - n - 1]);
        } else {
            assert(e[m - 1] == l[l.len() - 1]);
        }
    }
    if is_heading(l) {
        assert(e.last() == l[l.len() - 1]);
    }
}

proof fn lemma_layout_shape(ls: Seq<Seq<char>>)
    requires
        forall|k: int| 0 <= k < ls.len() ==> (#[trigger] ls[k]).len() > 0 && single_line(ls[k]),
        forall|k: int| 1 <= k < ls.len() - 1 ==> is_heading(#[trigger] ls[k]),
    ensures
        no_double_break(layout(ls)),
        ls.len() > 0 ==> layout(ls).len() > 0 && layout(ls)[0] != '\n',
        ls.len() == 1 || (ls.len() > 1 && is_heading(ls.last())) ==> layout(ls).last() != '\n',
    decreases ls.len(),
{
    if ls.len() == 1 {
        assert(single_line(ls[0]));
        assert(ls[0][ls[0].len() - 1] != '\n');
    } else if ls.len() > 1 {
        let prev = ls.drop_last();
        assert forall|k: int| 0 <= k < prev.len() implies (#[trigger] prev[k]).len() > 0
            && single_line(prev[k]) && (k >= 1 ==> is_heading(prev[k])) by {
            assert(prev[k] == ls[k]);
        }
        lemma_layout_shape(prev);
        assert(ls[ls.len() - 1].len() > 0 && single_line(ls[ls.len() - 1]));
        if prev.len() > 1 {
            assert(is_heading(prev[prev.len() - 1]));
        }
        lemma_push_block(layout(prev), ls.last());
        assert((layout(prev) + block(ls.last()))[0] == layout(prev)[0]);
    }
}

/// When every kept line between the first and the last is a heading, no line of the
/// document is empty. A command line after the first that is followed by another kept
/// line is surrounded by line breaks, which leaves an empty line after it; such bodies
/// are left out here.
pub proof fn lemma_no_empty_line(bodies: Seq<Seq<char>>)
    requires
        forall|k: int|
            1 <= k < kept_lines(bodies).len() - 1 ==> is_heading(#[trigger] kept_lines(bodies)[k]),
    ensures
        no_empty_line(document(bodies)),
{
    let ls = kept_lines(bodies);
    lemma_kept_lines_non_empty(bodies);
    lemma_layout_shape(ls);
    let d = layout(ls);
    assert forall|m: int| 0 <= m < d.len() && #[trigger] d[m] == '\n' implies m > 0 && d[m - 1]
        != '\n' by {
        if ls.len() == 0 {
            assert(d.len() == 0);
        }
    }
}

proof fn lemma_lines_append(d: Seq<char>, w: Seq<char>)
    requires
        single_line(w),
    ensures
        lines_of(d + w) == lines_of(d).update(
            lines_of(d).len() - 1,
            lines_of(d).last() + w,
        ),
    decreases w.len(),
{
    lemma_lines_of_len(d);
    let ld = lines_of(d);
    if w.len() == 0 {
        assert(d + w =~= d);
        assert(ld.last() + w =~= ld.last());
        assert(ld.update(ld.len() - 1, ld.last() + w) =~= ld);
    } else {
        let v = w.drop_last();
        assert(single_line(v));
        lemma_lines_append(d, v);
        assert((d + w).drop_last() =~= d + v);
        assert((d + w).last() == w[w.len() - 1]);
        assert((ld.last() + v).push(w.last()) =~= ld.last() + w);
        let p = lines_of(d + v);
        assert(w.last() == w[w.len() - 1] && w[w.len() - 1] != '\n');
        assert(p.len() == ld.len());
        assert(p.last() == ld.last() + v);
        assert(p.update(p.len() - 1, p.last().push(w.last())) =~= ld.update(
            ld.len() - 1,
            ld.last() + w,
        ));
    }
}

proof fn lemma_block_lines(d: Seq<char>, x: Seq<char>)
    requires
        x.len() > 0,
        single_line(x),
    ensures
        non_empty(lines_of(d + block(x))) == non_empty(lines_of(d)).push(x),
{
    let e = Seq::<char>::empty();
    let dn = d.push('\n');
    assert(dn.drop_last() =~= d);
    let ld = lines_of(d);
    lemma_lines_of_len(d);
    assert(lines_of(dn) == ld.push(e));
    lemma_lines_append(dn, x);
    assert(e + x =~= x);
    assert(lines_of(dn + x) =~= ld.push(x));
    assert(ld.push(x).drop_last() =~= ld);
    assert(ld.push(x).last() == x);
    assert(non_empty(ld.push(x)) == non_empty(ld).push(x));
    if is_heading(x) {
        assert(d + block(x) =~= dn + x);
    } else {
        assert(d + block(x) =~= (dn + x).push('\n'));
        assert((dn + x).push('\n').drop_last() =~= dn + x);
        assert(ld.push(x).push(e).drop_last() =~= ld.push(x));
        assert(ld.push(x).push(e).last() == e);
        assert(lines_of((dn + x).push('\n')) == ld.push(x).push(e));
        assert(non_empty(ld.push(x).push(e)) == non_empty(ld.push(x)));
    }
}

proof fn lemma_no_text_no_lines()
    ensures
        non_empty(lines_of(Seq::<char>::empty())) == Seq::<Seq<char>>::empty(),
{
    let e = Seq::<char>::empty();
    assert(lines_of(e) == seq![e]);
    assert(seq![e].last() == e);
    assert(seq![e].drop_last() =~= Seq::<Seq<char>>::empty());
    assert(non_empty(Seq::<Seq<char>>::empty()) == Seq::<Seq<char>>::empty());
    assert(non_empty(seq![e]) == non_empty(seq![e].drop_last()));
}

proof fn lemma_layout_lines(ls: Seq<Seq<char>>)
    requires
        forall|k: int| 0 <= k < ls.len() ==> (#[trigger] ls[k]).len() > 0 && single_line(ls[k]),
    ensures
        non_empty(lines_of(layout(ls))) == ls,
    decreases ls.len(),
{
    let e = Seq::<char>::empty();
    if ls.len() == 0 {
        lemma_no_text_no_lines();
        assert(layout(ls) == e);
        assert(ls =~= Seq::<Seq<char>>::empty());
    } else {
        let x = ls.last();
        assert(x.len() > 0 && single_line(x));
        if ls.len() == 1 {
            lemma_lines_append(e, x);
            assert(e + x =~= x);
            assert(lines_of(x) =~= seq![x]);
            assert(seq![x].drop_last() =~= Seq::<Seq<char>>::empty());
            assert(seq![x].last() == x);
            assert(non_empty(Seq::<Seq<char>>::empty()) == Seq::<Seq<char>>::empty());
            assert(non_empty(seq![x]) == non_empty(Seq::<Seq<char>>::empty()).push(x));
            assert(Seq::<Seq<char>>::empty().push(x) =~= seq![x]);
            assert(ls =~= seq![x]);
            assert(layout(ls) == x);
        } else {
            let prev = ls.drop_last();
            assert forall|k: int| 0 <= k < prev.len() implies (#[trigger] prev[k]).len() > 0
                && single_line(prev[k]) by {
                assert(prev[k] == ls[k]);
            }
            lemma_layout_lines(prev);
            lemma_block_lines(layout(prev), x);
            assert(layout(ls) == layout(prev) + block(x));
            assert(prev.push(x) =~= ls);
        }
    }
}

/// Taken line by line, the non-empty lines of a document are exactly the kept lines of
/// its bodies, each once and in order: nothing else is emitted.
pub proof fn lemma_document_lines(bodies: Seq<Seq<char>>)
    ensures
        non_empty(lines_of(document(bodies))) == kept_lines(bodies),
{
    lemma_kept_lines_non_empty(bodies);
    lemma_layout_lines(kept_lines(bodies));
}

/// A text made of line breaks only.
pub open spec fn only_breaks(e: Seq<char>) -> bool {
    forall|i: int| 0 <= i < e.len() ==> e[i] == '\n'
}

proof fn lemma_kept_concat(x: Seq<Seq<char>>, y: Seq<Seq<char>>)
    ensures
        kept_lines(x + y) == kept_lines(x) + kept_lines(y),
    decreases y.len(),
{
    if y.len() == 0 {
        assert(x + y =~= x);
        assert(kept_lines(x) + kept_lines(y) =~= kept_lines(x));
    } else {
        lemma_kept_concat(x, y.drop_last());
        assert((x + y).drop_last() =~= x + y.drop_last());
        assert((x + y).last() == y.last());
        let ky = non_empty(lines_of(y.last()));
        assert(kept_lines(x) + kept_lines(y.drop_last()) + ky =~= kept_lines(x) + (kept_lines(
            y.drop_last(),
        ) + ky));
    }
}

proof fn lemma_only_breaks_keep_nothing(e: Seq<char>)
    requires
        only_breaks(e),
    ensures
        non_empty(lines_of(e)) == Seq::<Seq<char>>::empty(),
    decreases e.len(),
{
    if e.len() == 0 {
        lemma_no_text_no_lines();
    } else {
        let p = e.drop_last();
        assert(only_breaks(p));
        lemma_only_breaks_keep_nothing(p);
        assert(e.last() == e[e.len() - 1] && e[e.len() - 1] == '\n');
        assert(lines_of(e) == lines_of(p).push(Seq::empty()));
        assert(lines_of(e).drop_last() =~= lines_of(p));
        assert(lines_of(e).last().len() == 0);
    }
}

/// A body made of line breaks only contributes nothing: inserting it anywhere among the
/// bodies leaves the document as it was.
pub proof fn lemma_empty_body_adds_nothing(
    before: Seq<Seq<char>>,
    e: Seq<char>,
    after: Seq<Seq<char>>,
)
    requires
        only_breaks(e),
    ensures
        document(before + seq![e] + after) == document(before + after),
{
    lemma_only_breaks_keep_nothing(e);
    lemma_kept_concat(before + seq![e], after);
    lemma_kept_concat(before, seq![e]);
    lemma_kept_concat(before, after);
    assert(seq![e].drop_last() =~= Seq::<Seq<char>>::empty());
    assert(seq![e].last() == e);
    assert(kept_lines(Seq::<Seq<char>>::empty()) + Seq::<Seq<char>>::empty() =~= Seq::<
        Seq<char>,
    >::empty());
    assert(kept_lines(seq![e]) =~= Seq::<Seq<char>>::empty());
    assert(kept_lines(before) + Seq::<Seq<char>>::empty() =~= kept_lines(before));
}

/// Appends one non-empty line to the layout of `kept`: as it is when it is the first,
/// else as its block.
fn push_line(laid: &mut String, line: &str, started: &mut bool, Ghost(kept): Ghost<Seq<Seq<char>>>)
    requires
        line@.len() > 0,
        old(laid)@ == layout(kept),
        *old(started) == (kept.len() > 0),
    ensures
        final(laid)@ == layout(kept.push(line@)),
        *final(started),
{
    proof {
        reveal_strlit("\n");
        assert(kept.push(line@).drop_last() =~= kept);
    }
    if !*started {
        laid.append(line);
        *started = true;
        assert(final(laid)@ =~= line@);
    } else {
        let heading = line.get_char(0) == '#';
        laid.append("\n");
        laid.append(line);
        if !heading {
            laid.append("\n");
        }
        assert(final(laid)@ =~= old(laid)@ + block(line@));
    }
}

/// Appends the non-empty lines of `body` to the layout of `pre`.
fn push_body(laid: &mut String, body: &str, started: &mut bool, Ghost(pre): Ghost<Seq<Seq<char>>>)
    requires
        old(laid)@ == layout(pre),
        *old(started) == (pre.len() > 0),
    ensures
        final(laid)@ == layout(pre + non_empty(lines_of(body@))),
        *final(started) == ((pre + non_empty(lines_of(body@))).len() > 0),
{
    let ghost s = body@;
    let n = body.unicode_len();
    let mut start: usize = 0;
    let mut i: usize = 0;
    proof {
        assert(s.take(0) =~= Seq::<char>::empty());
        assert(s.subrange(0, 0) =~= Seq::<char>::empty());
        assert(lines_of(s.take(0)).drop_last() =~= Seq::<Seq<char>>::empty());
        assert(pre + Seq::<Seq<char>>::empty() =~= pre);
    }
    while i < n
        invariant
            n == s.len(),
            s == body@,
            start <= i <= n,
            lines_of(s.take(i as int)).len() >= 1,
            lines_of(s.take(i as int)).last() == s.subrange(start as int, i as int),
            laid@ == layout(pre + non_empty(lines_of(s.take(i as int)).drop_last())),
            *started == ((pre + non_empty(lines_of(s.take(i as int)).drop_last())).len() > 0),
        decreases n - i,
    {
        let c = body.get_char(i);
        let ghost prev = lines_of(s.take(i as int));
        let ghost cur = s.subrange(start as int, i as int);
        proof {
            assert(s.take(i + 1).drop_last() =~= s.take(i as int));
            assert(s.take(i + 1).last() == c);
        }
        if c == '\n' {
            proof {
                let next = lines_of(s.take(i + 1));
                assert(next == prev.push(Seq::empty()));
                assert(next.drop_last() =~= prev);
                assert(prev.drop_last().push(cur) =~= prev);
                let rest = non_empty(prev.drop_last());
                assert((pre + rest).push(cur) =~= pre + rest.push(cur));
                assert(s.subrange(i + 1, i + 1) =~= Seq::<char>::empty());
            }
            if start < i {
                let line = body.substring_char(start, i);
                push_line(laid, line, started, Ghost(pre + non_empty(prev.drop_last())));
            }
            start = i + 1;
        } else {
            proof {
                let next = lines_of(s.take(i + 1));
                assert(next.drop_last() =~= prev.drop_last());
                assert(s.subrange(start as int, i + 1) =~= cur.push(c));
            }
        }
        i += 1;
    }
    let ghost all = lines_of(s);
    proof {
        assert(s.take(n as int) =~= s);
        let cur = s.subrange(start as int, n as int);
        assert(all.drop_last().push(cur) =~= all);
        let rest = non_empty(all.drop_last());
        assert((pre + rest).push(cur) =~= pre + rest.push(cur));
    }
    if start < n {
        let line = body.substring_char(start, n);
        push_line(laid, line, started, Ghost(pre + non_empty(all.drop_last())));
    }
}

impl Cli {
    /// Merges snippet bodies into one document: empty lines are dropped, the very first
    /// kept line stands alone, and each later line is laid out as its block: a heading
    /// is preceded by a line break, a command line is surrounded by line breaks.
    pub fn format_to_string(list: &Vec<String>) -> (r: String)
        ensures
            r@ == document(bodies_of(list@)),
    {
        let ghost bodies = bodies_of(list@);
        let mut laid = String::new();
        let mut started = false;
        let mut j: usize = 0;
        proof {
            assert(bodies.take(0) =~= Seq::<Seq<char>>::empty());
        }
        while j < list.len()
            invariant
                j <= list.len(),
                bodies == bodies_of(list@),
                laid@ == layout(kept_lines(bodies.take(j as int))),
                started == (kept_lines(bodies.take(j as int)).len() > 0),
            decreases list.len() - j,
        {
            proof {
                assert(bodies.take(j + 1).drop_last() =~= bodies.take(j as int));
                assert(bodies.take(j + 1).last() == list@[j as int]@);
            }
            push_body(&mut laid, list[j].as_str(), &mut started, Ghost(kept_lines(bodies.take(j as int))));
            j += 1;
        }
        assert(bodies.take(list.len() as int) =~= bodies);
        laid
    }
}

} // verus!

//! The persistence codec: the line-oriented persisted form of a session.
//! Every pending item is one line `TODO: <text>`, every completed item one
//! line `DONE: <text>`; a line with neither prefix is a fatal format error
//! reported with its 1-based line number.
use crate::model::Status;
use vstd::prelude::*;

verus! {

/// The line terminator of the persisted form.
pub const NEWLINE: u8 = 10;

/// The six bytes of `"TODO: "`.
pub open spec fn todo_prefix() -> Seq<u8> {
    seq![84u8, 79u8, 68u8, 79u8, 58u8, 32u8]
}

/// The six bytes of `"DONE: "`.
pub open spec fn done_prefix() -> Seq<u8> {
    seq![68u8, 79u8, 78u8, 69u8, 58u8, 32u8]
}

/// What one persisted line means: its status and item text when it starts
/// with one of the two fixed prefixes, nothing otherwise.
pub open spec fn spec_parse_item(line: Seq<u8>) -> Option<(Status, Seq<u8>)> {
    if line.len() >= 6 && line.subrange(0, 6) == todo_prefix() {
        Some((Status::Todo, line.skip(6)))
    } else if line.len() >= 6 && line.subrange(0, 6) == done_prefix() {
        Some((Status::Done, line.skip(6)))
    } else {
        None
    }
}

/// The bytes of `"TODO: "` as a vector.
pub fn todo_prefix_vec() -> (v: Vec<u8>)
    ensures
        v@ == todo_prefix(),
{
    let mut v: Vec<u8> = Vec::new();
    v.push(84);
    v.push(79);
    v.push(68);
    v.push(79);
    v.push(58);
    v.push(32);
    proof {
        assert(v@ =~= todo_prefix());
    }
    v
}

/// The bytes of `"DONE: "` as a vector.
pub fn done_prefix_vec() -> (v: Vec<u8>)
    ensures
        v@ == done_prefix(),
{
    let mut v: Vec<u8> = Vec::new();
    v.push(68);
    v.push(79);
    v.push(78);
    v.push(69);
    v.push(58);
    v.push(32);
    proof {
        assert(v@ =~= done_prefix());
    }
    v
}

/// Whether `line` begins with the whole of `prefix`.
pub fn starts_with(line: &Vec<u8>, prefix: &Vec<u8>) -> (r: bool)
    ensures
        r == (line@.len() >= prefix@.len() && line@.subrange(0, prefix@.len() as int) == prefix@),
{
    if line.len() < prefix.len() {
        return false;
    }
    let mut i: usize = 0;
    while i < prefix.len()
        invariant
            i <= prefix@.len() <= line@.len(),
            forall|j: int| 0 <= j < i ==> line@[j] == prefix@[j],
        decreases prefix@.len() - i,
    {
        if line[i] != prefix[i] {
            proof {
                assert(line@.subrange(0, prefix@.len() as int)[i as int] == line@[i as int]);
            }
            return false;
        }
        i += 1;
    }
    proof {
        assert(line@.subrange(0, prefix@.len() as int) =~= prefix@);
    }
    true
}

/// A copy of `line` from position `start` on.
pub fn tail_from(line: &Vec<u8>, start: usize) -> (r: Vec<u8>)
    requires
        start <= line@.len(),
    ensures
        r@ == line@.skip(start as int),
{
    let mut r: Vec<u8> = Vec::new();
    let mut i: usize = start;
    while i < line.len()
        invariant
            start <= i <= line@.len(),
            r@ == line@.subrange(start as int, i as int),
        decreases line@.len() - i,
    {
        let b = line[i];
        r.push(b);
        proof {
            assert(r@ =~= line@.subrange(start as int, i + 1 as int));
        }
        i += 1;
    }
    proof {
        assert(line@.subrange(start as int, line@.len() as int) =~= line@.skip(start as int));
    }
    r
}

/// Parse one persisted line into its status and item text; nothing when
/// the line starts with neither `"TODO: "` nor `"DONE: "`.
pub fn parse_item(line: &Vec<u8>) -> (r: Option<(Status, Vec<u8>)>)
    ensures
        match r {
            Some((status, text)) => spec_parse_item(line@) == Some((status, text@)),
            None => spec_parse_item(line@) is None,
        },
{
    let tp = todo_prefix_vec();
    if starts_with(line, &tp) {
        let text = tail_from(line, 6);
        return Some((Status::Todo, text));
    }
    let dp = done_prefix_vec();
    if starts_with(line, &dp) {
        let text = tail_from(line, 6);
        return Some((Status::Done, text));
    }
    None
}

/// The lines of a byte text: the maximal terminator-free runs. A final
/// run without a terminator counts as a line; a trailing terminator adds
/// no empty line.
pub open spec fn spec_split_lines(content: Seq<u8>) -> Seq<Seq<u8>>
    decreases content.len(),
{
    if content.len() == 0 {
        Seq::empty()
    } else if content[0] == NEWLINE {
        seq![Seq::<u8>::empty()] + spec_split_lines(content.skip(1))
    } else {
        let rest = spec_split_lines(content.skip(1));
        if rest.len() == 0 {
            seq![seq![content[0]]]
        } else {
            seq![seq![content[0]] + rest[0]] + rest.skip(1)
        }
    }
}

/// Splitting takes a leading terminated line off the front whole.
proof fn lemma_split_prepend(line: Seq<u8>, rest: Seq<u8>)
    requires
        forall|j: int| 0 <= j < line.len() ==> line[j] != NEWLINE,
    ensures
        spec_split_lines(line + seq![NEWLINE] + rest) == seq![line] + spec_split_lines(rest),
    decreases line.len(),
{
    let c = line + seq![NEWLINE] + rest;
    if line.len() == 0 {
        assert(c[0] == NEWLINE);
        assert(c.skip(1) =~= rest);
        assert(spec_split_lines(c) =~~= seq![line] + spec_split_lines(rest));
    } else {
        assert(c[0] == line[0]);
        assert(c.skip(1) =~= line.skip(1) + seq![NEWLINE] + rest);
        lemma_split_prepend(line.skip(1), rest);
        let r = spec_split_lines(c.skip(1));
        assert(r.len() > 0);
        assert(spec_split_lines(c) == seq![seq![c[0]] + r[0]] + r.skip(1));
        assert(r[0] == line.skip(1));
        assert(seq![c[0]] + r[0] =~= line);
        assert(r.skip(1) =~= spec_split_lines(rest));
        assert(spec_split_lines(c) =~~= seq![line] + spec_split_lines(rest));
    }
}

/// A non-empty text without a terminator splits into itself alone.
proof fn lemma_split_unterminated(line: Seq<u8>)
    requires
        line.len() > 0,
        forall|j: int| 0 <= j < line.len() ==> line[j] != NEWLINE,
    ensures
        spec_split_lines(line) == seq![line],
    decreases line.len(),
{
    if line.len() == 1 {
        assert(line.skip(1) =~= Seq::<u8>::empty());
        assert(spec_split_lines(line.skip(1)) == Seq::<Seq<u8>>::empty());
        assert(seq![line[0]] =~= line);
        assert(spec_split_lines(line) =~~= seq![line]);
    } else {
        assert(line.skip(1).len() > 0);
        lemma_split_unterminated(line.skip(1));
        let r = spec_split_lines(line.skip(1));
        assert(r.len() > 0);
        assert(spec_split_lines(line) == seq![seq![line[0]] + r[0]] + r.skip(1));
        assert(r[0] == line.skip(1));
        assert(seq![line[0]] + line.skip(1) =~= line);
        assert(spec_split_lines(line) =~~= seq![line]);
    }
}

/// Split a byte text into its lines, as `spec_split_lines` describes.
pub fn split_lines(content: &Vec<u8>) -> (lines: Vec<Vec<u8>>)
    ensures
        crate::views_of(lines@) == spec_split_lines(content@),
{
    let mut out: Vec<Vec<u8>> = Vec::new();
    let mut cur: Vec<u8> = Vec::new();
    let mut i: usize = 0;
    proof {
        assert(cur@ + content@.skip(0) =~= content@);
        assert(crate::views_of(out@) =~= Seq::<Seq<u8>>::empty());
    }
    while i < content.len()
        invariant
            i <= content@.len(),
            forall|j: int| 0 <= j < cur@.len() ==> cur@[j] != NEWLINE,
            spec_split_lines(content@) == crate::views_of(out@) + spec_split_lines(
                cur@ + content@.skip(i as int),
            ),
        decreases content@.len() - i,
    {
        let b = content[i];
        if b == NEWLINE {
            let ghost out0 = crate::views_of(out@);
            let ghost cur0 = cur@;
            proof {
                lemma_split_prepend(cur0, content@.skip(i + 1));
                assert(cur0 + content@.skip(i as int) =~= cur0 + seq![NEWLINE] + content@.skip(
                    i + 1,
                ));
            }
            out.push(cur);
            cur = Vec::new();
            proof {
                assert(crate::views_of(out@) =~= out0.push(cur0));
                assert(cur@ + content@.skip(i + 1) =~= content@.skip(i + 1));
                assert(crate::views_of(out@) + spec_split_lines(cur@ + content@.skip(i + 1)) =~= out0
                    + spec_split_lines(cur0 + content@.skip(i as int)));
            }
        } else {
            let ghost cur0 = cur@;
            cur.push(b);
            proof {
                assert(cur@ + content@.skip(i + 1) =~= cur0 + content@.skip(i as int));
            }
        }
        i += 1;
    }
    proof {
        assert(cur@ + content@.skip(i as int) =~= cur@);
    }
    if cur.len() > 0 {
        let ghost out0 = crate::views_of(out@);
        let ghost cur0 = cur@;
        proof {
            lemma_split_unterminated(cur0);
        }
        out.push(cur);
        proof {
            assert(crate::views_of(out@) =~= out0.push(cur0));
            assert(crate::views_of(out@) =~= out0 + spec_split_lines(cur0));
        }
    } else {
        proof {
            assert(spec_split_lines(cur@) =~= Seq::<Seq<u8>>::empty());
            assert(crate::views_of(out@) + spec_split_lines(cur@) =~= crate::views_of(out@));
        }
    }
    out
}

/// What a sequence of lines loads to: the pending and completed item
/// lists, each in line order, or the 1-based number of the first line
/// that starts with neither prefix.
pub open spec fn spec_parse_lines(lines: Seq<Seq<u8>>) -> Result<(Seq<Seq<u8>>, Seq<Seq<u8>>), int>
    decreases lines.len(),
{
    if lines.len() == 0 {
        Ok((Seq::empty(), Seq::empty()))
    } else {
        match spec_parse_lines(lines.drop_last()) {
            Err(k) => Err(k),
            Ok((todos, dones)) => match spec_parse_item(lines.last()) {
                None => Err(lines.len() as int),
                Some((status, text)) => match status {
                    Status::Todo => Ok((todos.push(text), dones)),
                    Status::Done => Ok((todos, dones.push(text))),
                },
            },
        }
    }
}

/// What a persisted byte text loads to.
pub open spec fn spec_load(content: Seq<u8>) -> Result<(Seq<Seq<u8>>, Seq<Seq<u8>>), int> {
    spec_parse_lines(spec_split_lines(content))
}

/// A failing line fails the whole load, with its 1-based number.
proof fn lemma_parse_lines_first_error(lines: Seq<Seq<u8>>, i: int)
    requires
        0 <= i < lines.len(),
        spec_parse_lines(lines.take(i)) is Ok,
        spec_parse_item(lines[i]) is None,
    ensures
        spec_parse_lines(lines) == Err::<(Seq<Seq<u8>>, Seq<Seq<u8>>), int>(i + 1),
    decreases lines.len(),
{
    if lines.len() == i + 1 {
        assert(lines.drop_last() =~= lines.take(i));
        assert(lines.last() == lines[i]);
    } else {
        assert(lines.drop_last().take(i) =~= lines.take(i));
        assert(lines.drop_last()[i] == lines[i]);
        lemma_parse_lines_first_error(lines.drop_last(), i);
    }
}

/// A format error: the 1-based number of the first persisted line that
/// starts with neither `"TODO: "` nor `"DONE: "`.
#[derive(Clone, Copy, Debug, PartialEq, Eq, Structural)]
pub struct LoadError {
    pub line: usize,
}

/// Parse a whole persisted byte text into the pending and completed item
/// lists, in line order; on the first ill-formed line, its 1-based number.
pub fn load_state(content: &Vec<u8>) -> (r: Result<(Vec<Vec<u8>>, Vec<Vec<u8>>), LoadError>)
    ensures
        match r {
            Ok((todos, dones)) => spec_load(content@) == Ok::<(Seq<Seq<u8>>, Seq<Seq<u8>>), int>(
                (crate::views_of(todos@), crate::views_of(dones@)),
            ),
            Err(e) => spec_load(content@) == Err::<(Seq<Seq<u8>>, Seq<Seq<u8>>), int>(
                e.line as int,
            ) && 1 <= e.line,
        },
{
    let lines = split_lines(content);
    let ghost lv = crate::views_of(lines@);
    let mut todos: Vec<Vec<u8>> = Vec::new();
    let mut dones: Vec<Vec<u8>> = Vec::new();
    let mut i: usize = 0;
    proof {
        assert(lv.take(0) =~= Seq::<Seq<u8>>::empty());
        assert(crate::views_of(todos@) =~= Seq::<Seq<u8>>::empty());
        assert(crate::views_of(dones@) =~= Seq::<Seq<u8>>::empty());
    }
    while i < lines.len()
        invariant
            i <= lines@.len(),
            lv == crate::views_of(lines@),
            lv == spec_split_lines(content@),
            spec_parse_lines(lv.take(i as int)) == Ok::<(Seq<Seq<u8>>, Seq<Seq<u8>>), int>(
                (crate::views_of(todos@), crate::views_of(dones@)),
            ),
        decreases lines@.len() - i,
    {
        let parsed = parse_item(&lines[i]);
        match parsed {
            None => {
                proof {
                    lemma_parse_lines_first_error(lv, i as int);
                }
                return Err(LoadError { line: i + 1 });
            },
            Some((status, text)) => {
                let ghost t0 = crate::views_of(todos@);
                let ghost d0 = crate::views_of(dones@);
                let ghost textv = text@;
                match status {
                    Status::Todo => todos.push(text),
                    Status::Done => dones.push(text),
                }
                proof {
                    assert(lv.take(i + 1).drop_last() =~= lv.take(i as int));
                    assert(lv.take(i + 1).last() == lv[i as int]);
                    if status == Status::Todo {
                        assert(crate::views_of(todos@) =~= t0.push(textv));
                    } else {
                        assert(crate::views_of(dones@) =~= d0.push(textv));
                    }
                    assert(spec_parse_lines(lv.take(i + 1)) == Ok::<
                        (Seq<Seq<u8>>, Seq<Seq<u8>>),
                        int,
                    >((crate::views_of(todos@), crate::views_of(dones@))));
                }
            },
        }
        i += 1;
    }
    proof {
        assert(lv.take(lines@.len() as int) =~= lv);
    }
    Ok((todos, dones))
}

/// The persisted bytes of a list of items, each under the given prefix
/// and with a trailing terminator, in list order.
pub open spec fn spec_render_items(items: Seq<Seq<u8>>, prefix: Seq<u8>) -> Seq<u8>
    decreases items.len(),
{
    if items.len() == 0 {
        Seq::empty()
    } else {
        prefix + items[0] + seq![NEWLINE] + spec_render_items(items.skip(1), prefix)
    }
}

/// The whole persisted text of a session: every pending item as a
/// `TODO: ` line, then every completed item as a `DONE: ` line.
pub open spec fn spec_save(todos: Seq<Seq<u8>>, dones: Seq<Seq<u8>>) -> Seq<u8> {
    spec_render_items(todos, todo_prefix()) + spec_render_items(dones, done_prefix())
}

/// Rendering appends one line at the end.
proof fn lemma_render_items_push(items: Seq<Seq<u8>>, prefix: Seq<u8>, x: Seq<u8>)
    ensures
        spec_render_items(items.push(x), prefix) == spec_render_items(items, prefix) + prefix + x
            + seq![NEWLINE],
    decreases items.len(),
{
    if items.len() == 0 {
        assert(items.push(x)[0] == x);
        assert(items.push(x).skip(1) =~= Seq::<Seq<u8>>::empty());
        assert(spec_render_items(items.push(x).skip(1), prefix) == Seq::<u8>::empty());
        assert(spec_render_items(items.push(x), prefix) =~= spec_render_items(items, prefix)
            + prefix + x + seq![NEWLINE]);
    } else {
        assert(items.push(x)[0] == items[0]);
        assert(items.push(x).skip(1) =~= items.skip(1).push(x));
        lemma_render_items_push(items.skip(1), prefix, x);
        assert(spec_render_items(items.push(x), prefix) =~= spec_render_items(items, prefix)
            + prefix + x + seq![NEWLINE]);
    }
}

/// Append every byte of `src` to `out`.
pub fn append_all(out: &mut Vec<u8>, src: &Vec<u8>)
    ensures
        final(out)@ == old(out)@ + src@,
{
    proof {
        assert(out@ =~= old(out)@ + src@.subrange(0, 0));
    }
    let mut i: usize = 0;
    while i < src.len()
        invariant
            i <= src@.len(),
            out@ == old(out)@ + src@.subrange(0, i as int),
        decreases src@.len() - i,
    {
        let b = src[i];
        out.push(b);
        proof {
            assert(out@ =~= old(out)@ + src@.subrange(0, i + 1));
        }
        i += 1;
    }
    proof {
        assert(old(out)@ + src@.subrange(0, src@.len() as int) =~= old(out)@ + src@);
    }
}

/// Serialize the two lists: every pending item as a `TODO: ` line in list
/// order, then every completed item as a `DONE: ` line in list order.
pub fn save_state(todos: &Vec<Vec<u8>>, dones: &Vec<Vec<u8>>) -> (out: Vec<u8>)
    ensures
        out@ == spec_save(crate::views_of(todos@), crate::views_of(dones@)),
{
    let ghost tv = crate::views_of(todos@);
    let ghost dv = crate::views_of(dones@);
    let tp = todo_prefix_vec();
    let dp = done_prefix_vec();
    let mut out: Vec<u8> = Vec::new();
    let mut i: usize = 0;
    proof {
        assert(tv.take(0) =~= Seq::<Seq<u8>>::empty());
        assert(out@ =~= spec_render_items(tv.take(0), todo_prefix()));
    }
    while i < todos.len()
        invariant
            i <= todos@.len(),
            tv == crate::views_of(todos@),
            tp@ == todo_prefix(),
            out@ == spec_render_items(tv.take(i as int), todo_prefix()),
        decreases todos@.len() - i,
    {
        let ghost o0 = out@;
        append_all(&mut out, &tp);
        append_all(&mut out, &todos[i]);
        out.push(NEWLINE);
        proof {
            lemma_render_items_push(tv.take(i as int), todo_prefix(), tv[i as int]);
            assert(tv.take(i + 1) =~= tv.take(i as int).push(tv[i as int]));
            assert(out@ =~= o0 + todo_prefix() + tv[i as int] + seq![NEWLINE]);
        }
        i += 1;
    }
    proof {
        assert(tv.take(todos@.len() as int) =~= tv);
    }
    let mut j: usize = 0;
    proof {
        assert(dv.take(0) =~= Seq::<Seq<u8>>::empty());
        assert(out@ =~= spec_render_items(tv, todo_prefix()) + spec_render_items(
            dv.take(0),
            done_prefix(),
        ));
    }
    while j < dones.len()
        invariant
            j <= dones@.len(),
            dv == crate::views_of(dones@),
            dp@ == done_prefix(),
            out@ == spec_render_items(tv, todo_prefix()) + spec_render_items(
                dv.take(j as int),
                done_prefix(),
            ),
        decreases dones@.len() - j,
    {
        let ghost o0 = out@;
        append_all(&mut out, &dp);
        append_all(&mut out, &dones[j]);
        out.push(NEWLINE);
        proof {
            lemma_render_items_push(dv.take(j as int), done_prefix(), dv[j as int]);
            assert(dv.take(j + 1) =~= dv.take(j as int).push(dv[j as int]));
            assert(out@ =~= o0 + done_prefix() + dv[j as int] + seq![NEWLINE]);
        }
        j += 1;
    }
    proof {
        assert(dv.take(dones@.len() as int) =~= dv);
    }
    out
}

/// The persisted line of one pending item, terminator left off.
pub open spec fn todo_line(text: Seq<u8>) -> Seq<u8> {
    todo_prefix() + text
}

/// The persisted line of one completed item, terminator left off.
pub open spec fn done_line(text: Seq<u8>) -> Seq<u8> {
    done_prefix() + text
}

/// The lines that the saved text of the two lists splits into.
pub open spec fn rendered_lines(todos: Seq<Seq<u8>>, dones: Seq<Seq<u8>>) -> Seq<Seq<u8>> {
    todos.map_values(|t: Seq<u8>| todo_line(t)) + dones.map_values(|t: Seq<u8>| done_line(t))
}

/// No item text holds a line terminator.
pub open spec fn items_clean(items: Seq<Seq<u8>>) -> bool {
    forall|i: int, j: int|
        0 <= i < items.len() && 0 <= j < items[i].len() ==> items[i][j] != NEWLINE
}

/// The saved text of the two lists splits back into one line per item.
proof fn lemma_split_save(todos: Seq<Seq<u8>>, dones: Seq<Seq<u8>>)
    requires
        items_clean(todos),
        items_clean(dones),
    ensures
        spec_split_lines(spec_save(todos, dones)) == rendered_lines(todos, dones),
    decreases todos.len(), dones.len(),
{
    if todos.len() > 0 {
        let line0 = todo_line(todos[0]);
        assert forall|j: int| 0 <= j < line0.len() implies line0[j] != NEWLINE by {
            if j < 6 {
                assert(line0[j] == todo_prefix()[j]);
            } else {
                assert(line0[j] == todos[0][j - 6]);
            }
        }
        assert(items_clean(todos.skip(1))) by {
            assert forall|i: int, j: int|
                0 <= i < todos.skip(1).len() && 0 <= j < todos.skip(1)[i].len() implies todos.skip(
                1,
            )[i][j] != NEWLINE by {
                assert(todos.skip(1)[i] == todos[i + 1]);
            }
        }
        lemma_split_save(todos.skip(1), dones);
        let tail = spec_save(todos.skip(1), dones);
        assert(spec_save(todos, dones) =~= line0 + seq![NEWLINE] + tail);
        lemma_split_prepend(line0, tail);
        assert(spec_split_lines(spec_save(todos, dones)) =~~= rendered_lines(todos, dones));
    } else if dones.len() > 0 {
        let line0 = done_line(dones[0]);
        assert forall|j: int| 0 <= j < line0.len() implies line0[j] != NEWLINE by {
            if j < 6 {
                assert(line0[j] == done_prefix()[j]);
            } else {
                assert(line0[j] == dones[0][j - 6]);
            }
        }
        assert(items_clean(dones.skip(1))) by {
            assert forall|i: int, j: int|
                0 <= i < dones.skip(1).len() && 0 <= j < dones.skip(1)[i].len() implies dones.skip(
                1,
            )[i][j] != NEWLINE by {
                assert(dones.skip(1)[i] == dones[i + 1]);
            }
        }
        lemma_split_save(todos, dones.skip(1));
        let tail = spec_save(todos, dones.skip(1));
        assert(spec_save(todos, dones) =~= line0 + seq![NEWLINE] + tail);
        lemma_split_prepend(line0, tail);
        assert(spec_split_lines(spec_save(todos, dones)) =~~= rendered_lines(todos, dones));
    } else {
        assert(spec_save(todos, dones) =~= Seq::<u8>::empty());
        assert(spec_split_lines(spec_save(todos, dones)) =~~= rendered_lines(todos, dones));
    }
}

/// A pending item's line parses back to the item.
proof fn lemma_parse_todo_line(text: Seq<u8>)
    ensures
        spec_parse_item(todo_line(text)) == Some((Status::Todo, text)),
{
    let l = todo_line(text);
    assert(l.subrange(0, 6) =~= todo_prefix());
    assert(l.skip(6) =~= text);
}

/// A completed item's line parses back to the item.
proof fn lemma_parse_done_line(text: Seq<u8>)
    ensures
        spec_parse_item(done_line(text)) == Some((Status::Done, text)),
{
    let l = done_line(text);
    assert(l.subrange(0, 6) =~= done_prefix());
    assert(l.subrange(0, 6)[0] == 68);
    assert(todo_prefix()[0] == 84);
    assert(l.skip(6) =~= text);
}

/// One line per item, in order, loads back to exactly the two lists.
proof fn lemma_parse_rendered(todos: Seq<Seq<u8>>, dones: Seq<Seq<u8>>)
    ensures
        spec_parse_lines(rendered_lines(todos, dones)) == Ok::<(Seq<Seq<u8>>, Seq<Seq<u8>>), int>(
            (todos, dones),
        ),
    decreases todos.len(), dones.len(),
{
    let lines = rendered_lines(todos, dones);
    if dones.len() > 0 {
        lemma_parse_rendered(todos, dones.drop_last());
        assert(lines.drop_last() =~= rendered_lines(todos, dones.drop_last()));
        assert(lines.last() == done_line(dones.last()));
        lemma_parse_done_line(dones.last());
        assert(dones.drop_last().push(dones.last()) =~= dones);
        assert(spec_parse_lines(lines) == Ok::<(Seq<Seq<u8>>, Seq<Seq<u8>>), int>((todos, dones)));
    } else if todos.len() > 0 {
        lemma_parse_rendered(todos.drop_last(), dones);
        assert(lines.drop_last() =~= rendered_lines(todos.drop_last(), dones));
        assert(lines.last() == todo_line(todos.last()));
        lemma_parse_todo_line(todos.last());
        assert(todos.drop_last().push(todos.last()) =~= todos);
        assert(spec_parse_lines(lines) == Ok::<(Seq<Seq<u8>>, Seq<Seq<u8>>), int>((todos, dones)));
    } else {
        assert(lines =~= Seq::<Seq<u8>>::empty());
        assert(todos =~= Seq::<Seq<u8>>::empty());
        assert(dones =~= Seq::<Seq<u8>>::empty());
        assert(spec_parse_lines(lines) == Ok::<(Seq<Seq<u8>>, Seq<Seq<u8>>), int>((todos, dones)));
    }
}

/// Round-trip: loading what was saved gives back exactly the two lists,
/// contents and order, for any session whose item texts hold no line
/// terminator.
pub proof fn lemma_save_load_roundtrip(todos: Seq<Seq<u8>>, dones: Seq<Seq<u8>>)
    requires
        items_clean(todos),
        items_clean(dones),
    ensures
        spec_load(spec_save(todos, dones)) == Ok::<(Seq<Seq<u8>>, Seq<Seq<u8>>), int>(
            (todos, dones),
        ),
{
    lemma_split_save(todos, dones);
    lemma_parse_rendered(todos, dones);
}

} // verus!

use vstd::prelude::*;
use crate::keys::{key_views, lemma_views_push, lemma_prefix_step};

verus! {

broadcast use vstd::string::group_string_axioms;

/// A snapshot file's text: each key followed by a newline.
pub open spec fn snapshot_text(keys: Seq<Seq<char>>) -> Seq<char>
    decreases keys.len(),
{
    if keys.len() == 0 {
        Seq::empty()
    } else {
        snapshot_text(keys.drop_last()) + keys.last() + seq!['\n']
    }
}

/// The text between newlines, in order; the last piece follows the last
/// newline and may be empty.
pub open spec fn pieces(t: Seq<char>) -> Seq<Seq<char>>
    decreases t.len(),
{
    if t.len() == 0 {
        seq![Seq::empty()]
    } else {
        let p = pieces(t.drop_last());
        if t.last() == '\n' {
            p.push(Seq::empty())
        } else {
            p.update(p.len() - 1, p.last().push(t.last()))
        }
    }
}

/// A line without the carriage return that may end it.
pub open spec fn strip_cr(line: Seq<char>) -> Seq<char> {
    if line.len() > 0 && line.last() == '\r' {
        line.drop_last()
    } else {
        line
    }
}

/// The lines of a text: a carriage return right before a newline belongs to
/// no line; text after the last newline is a line as it stands, where there
/// is any.
pub open spec fn snapshot_lines(t: Seq<char>) -> Seq<Seq<char>> {
    let p = pieces(t);
    let ended = p.drop_last().map_values(|l: Seq<char>| strip_cr(l));
    if p.last().len() == 0 {
        ended
    } else {
        ended.push(p.last())
    }
}

/// The keys of a snapshot that may be missing: none when it is.
pub open spec fn snapshot_keys(contents: Option<Seq<char>>) -> Seq<Seq<char>> {
    match contents {
        Some(t) => snapshot_lines(t),
        None => Seq::empty(),
    }
}

/// A key that a snapshot line can hold unchanged.
pub open spec fn storable_key(k: Seq<char>) -> bool {
    &&& !k.contains('\n')
    &&& !(k.len() > 0 && k.last() == '\r')
}

proof fn lemma_pieces_nonempty(t: Seq<char>)
    ensures
        pieces(t).len() >= 1,
    decreases t.len(),
{
    if t.len() > 0 {
        lemma_pieces_nonempty(t.drop_last());
    }
}

/// Text without a newline extends the last piece.
proof fn lemma_pieces_append_plain(t: Seq<char>, w: Seq<char>)
    requires
        !w.contains('\n'),
    ensures
        pieces(t + w) == pieces(t).update(pieces(t).len() - 1, pieces(t).last() + w),
    decreases w.len(),
{
    lemma_pieces_nonempty(t);
    if w.len() == 0 {
        assert(t + w =~= t);
        assert(pieces(t).last() + w =~= pieces(t).last());
        assert(pieces(t).update(pieces(t).len() - 1, pieces(t).last()) =~= pieces(t));
    } else {
        let w0 = w.drop_last();
        assert(!w0.contains('\n')) by {
            if w0.contains('\n') {
                let j = choose|j: int| 0 <= j < w0.len() && w0[j] == '\n';
                assert(w[j] == '\n');
            }
        }
        lemma_pieces_append_plain(t, w0);
        assert((t + w).drop_last() =~= t + w0);
        assert((t + w).last() == w.last());
        assert(w.last() != '\n') by {
            assert(w[w.len() - 1] == w.last());
        }
        lemma_pieces_nonempty(t + w0);
        assert((pieces(t).last() + w0).push(w.last()) =~= pieces(t).last() + w);
        assert(pieces(t + w) =~= pieces(t).update(pieces(t).len() - 1, pieces(t).last() + w));
    }
}

/// The pieces of a snapshot's text are its keys and an empty piece.
proof fn lemma_pieces_of_snapshot(keys: Seq<Seq<char>>)
    requires
        forall|i: int| 0 <= i < keys.len() ==> !(#[trigger] keys[i]).contains('\n'),
    ensures
        pieces(snapshot_text(keys)) == keys.push(Seq::empty()),
    decreases keys.len(),
{
    if keys.len() == 0 {
        assert(pieces(Seq::empty()) =~= keys.push(Seq::empty()));
    } else {
        let init = keys.drop_last();
        let k = keys.last();
        assert(!k.contains('\n')) by {
            assert(keys[keys.len() - 1] == k);
        }
        lemma_pieces_of_snapshot(init);
        let t = snapshot_text(init);
        lemma_pieces_append_plain(t, k);
        assert(Seq::<char>::empty() + k =~= k);
        assert(init.push(Seq::empty()).update(init.len() as int, k) =~= keys);
        let full = t + k + seq!['\n'];
        assert(full.drop_last() =~= t + k);
        assert(pieces(full) =~= keys.push(Seq::empty()));
    }
}

/// Writing keys to a snapshot and reading them back gives the same keys, in
/// the same order, duplicates included, where no key holds a newline or ends
/// with a carriage return.
pub proof fn lemma_snapshot_round_trip(keys: Seq<Seq<char>>)
    requires
        forall|i: int| 0 <= i < keys.len() ==> storable_key(#[trigger] keys[i]),
    ensures
        snapshot_lines(snapshot_text(keys)) == keys,
{
    lemma_pieces_of_snapshot(keys);
    let p = keys.push(Seq::<char>::empty());
    assert(p.drop_last() =~= keys);
    assert(keys.map_values(|l: Seq<char>| strip_cr(l)) =~= keys);
}

/// Two dumps of an unchanged store, each of which enumerated the same key
/// set in whatever order and with whatever repetitions, write snapshots that
/// read back as the same key set.
pub proof fn lemma_dump_idempotent(first: Seq<Seq<char>>, second: Seq<Seq<char>>)
    requires
        first.to_set() == second.to_set(),
        forall|i: int| 0 <= i < first.len() ==> storable_key(#[trigger] first[i]),
        forall|i: int| 0 <= i < second.len() ==> storable_key(#[trigger] second[i]),
    ensures
        snapshot_lines(snapshot_text(first)).to_set() == snapshot_lines(
            snapshot_text(second),
        ).to_set(),
{
    lemma_snapshot_round_trip(first);
    lemma_snapshot_round_trip(second);
}

/// Relies on `String`'s `FromIterator<char>`: the characters in order.
#[verifier::external_body]
fn string_from_chars(cs: &Vec<char>) -> (r: String)
    ensures
        r@ == cs@,
{
    cs.iter().collect()
}

/// The text of a snapshot file holding `keys`, one per line, in order.
pub fn render_snapshot(keys: &Vec<String>) -> (r: String)
    ensures
        r@ == snapshot_text(key_views(keys@)),
{
    let mut out = String::new();
    let mut i: usize = 0;
    while i < keys.len()
        invariant
            i <= keys.len(),
            out@ == snapshot_text(key_views(keys@.subrange(0, i as int))),
        decreases keys.len() - i,
    {
        proof {
            reveal_strlit("\n");
            lemma_prefix_step(keys@, i as int);
            lemma_views_push(keys@.subrange(0, i as int), keys@[i as int]);
            let v = key_views(keys@.subrange(0, i + 1));
            assert(v.drop_last() =~= key_views(keys@.subrange(0, i as int)));
        }
        out.append(keys[i].as_str());
        out.append("\n");
        i = i + 1;
    }
    assert(keys@.subrange(0, i as int) == keys@);
    out
}

/// Ends the current line. Where a newline ended it, a carriage return at its
/// end is dropped.
fn finish_line(lines: &mut Vec<String>, cur: &mut Vec<char>, newline: bool)
    ensures
        key_views(final(lines)@) == key_views(old(lines)@).push(
            if newline {
                strip_cr(old(cur)@)
            } else {
                old(cur)@
            },
        ),
        final(cur)@ == Seq::<char>::empty(),
{
    let n = cur.len();
    if newline && n > 0 && cur[n - 1] == '\r' {
        cur.pop();
    }
    let line = string_from_chars(cur);
    let ghost before = lines@;
    lines.push(line);
    proof {
        lemma_views_push(before, line);
    }
    *cur = Vec::new();
}

/// One step of splitting: the pieces of a text and one more character.
proof fn lemma_pieces_step(t: Seq<char>, c: char)
    ensures
        pieces(t.push(c)) == if c == '\n' {
            pieces(t).push(Seq::empty())
        } else {
            pieces(t).update(pieces(t).len() - 1, pieces(t).last().push(c))
        },
{
    assert(t.push(c).drop_last() =~= t);
}

/// The keys of a snapshot file's text, one per line, in order, duplicates
/// kept.
pub fn parse_snapshot(text: &str) -> (r: Vec<String>)
    ensures
        key_views(r@) == snapshot_lines(text@),
{
    let mut lines: Vec<String> = Vec::new();
    let mut cur: Vec<char> = Vec::new();
    let ghost mut seen: Seq<char> = Seq::empty();
    for c in it: text.chars()
        invariant
            it.seq() == text@,
            seen == text@.subrange(0, it.index() as int),
            pieces(seen).len() >= 1,
            cur@ == pieces(seen).last(),
            key_views(lines@) == pieces(seen).drop_last().map_values(|l: Seq<char>| strip_cr(l)),
    {
        proof {
            lemma_pieces_step(seen, c);
            lemma_pieces_nonempty(seen.push(c));
        }
        let ghost p = pieces(seen);
        if c == '\n' {
            finish_line(&mut lines, &mut cur, true);
            proof {
                assert(p.push(Seq::empty()).drop_last() =~= p);
                assert(p.map_values(|l: Seq<char>| strip_cr(l)) =~= p.drop_last().map_values(
                    |l: Seq<char>| strip_cr(l),
                ).push(strip_cr(p.last())));
            }
        } else {
            cur.push(c);
            proof {
                let q = p.update(p.len() - 1, p.last().push(c));
                assert(q.drop_last() =~= p.drop_last());
            }
        }
        proof {
            seen = seen.push(c);
            assert(seen =~= text@.subrange(0, it.index() + 1));
        }
    }
    proof {
        assert(seen =~= text@);
    }
    let ghost p = pieces(text@);
    if cur.len() > 0 {
        finish_line(&mut lines, &mut cur, false);
    }
    lines
}

/// The keys of a snapshot, where `None` stands for a file that does not
/// exist: that is no error, but a snapshot with no keys.
pub fn read_snapshot(contents: Option<String>) -> (r: Vec<String>)
    ensures
        key_views(r@) == snapshot_keys(
            match contents {
                Some(t) => Some(t@),
                None => None,
            },
        ),
{
    match contents {
        Some(t) => parse_snapshot(t.as_str()),
        None => {
            let r: Vec<String> = Vec::new();
            assert(key_views(r@) =~= Seq::<Seq<char>>::empty());
            r
        },
    }
}

} // verus!

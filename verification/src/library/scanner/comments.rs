//! The tags that a user writes into the comment of a file.
use vstd::prelude::*;
use crate::storage::memory::described;
use crate::text;
use crate::text::{char_is_space, chars_between, chars_of, find_char, string_from_chars, trim_chars};

verus! {

// ── Meaning ──────────────────────────────────────────────────────────────────

/// The index of the first blank, or the length.
pub open spec fn blank_at(s: Seq<char>) -> int {
    text::first_at(s.map_values(|c: char| text::is_space(c)), true)
}

/// The length of the word that begins with a hash sign: it ends at the next blank.
pub open spec fn word_len(s: Seq<char>) -> int {
    1 + blank_at(s.skip(1))
}

pub proof fn lemma_word(s: Seq<char>)
    ensures
        0 <= text::first_at(s, '#') <= s.len(),
        text::first_at(s, '#') < s.len() ==> 1 <= word_len(s.skip(text::first_at(s, '#')))
            <= s.len() - text::first_at(s, '#'),
{
    text::lemma_first_at(s, '#');
    let k = text::first_at(s, '#');
    let rest = s.skip(k).skip(1);
    text::lemma_first_at(rest.map_values(|c: char| text::is_space(c)), true);
}

/// The words of a comment that begin with a hash sign and go on.
pub open spec fn hash_words(s: Seq<char>) -> Seq<Seq<char>>
    decreases s.len(),
{
    proof {
        lemma_word(s);
    }
    let k = text::first_at(s, '#');
    if k >= s.len() {
        Seq::empty()
    } else {
        let t = s.skip(k);
        let n = word_len(t);
        (if n > 1 {
            seq![t.take(n)]
        } else {
            Seq::empty()
        }) + hash_words(t.skip(n))
    }
}

/// A comment without the words that begin with a hash sign.
pub open spec fn plain_part(s: Seq<char>) -> Seq<char>
    decreases s.len(),
{
    proof {
        lemma_word(s);
    }
    let k = text::first_at(s, '#');
    if k >= s.len() {
        s
    } else {
        let t = s.skip(k);
        s.take(k) + plain_part(t.skip(word_len(t)))
    }
}

/// Whether a character separates plain tags.
pub open spec fn separates(c: char) -> bool {
    c == ',' || c == ';' || c == '\n'
}

/// The parts of a text between separators.
pub open spec fn parts_of(s: Seq<char>) -> Seq<Seq<char>>
    decreases s.len(),
{
    if s.len() == 0 {
        seq![Seq::empty()]
    } else {
        let front = parts_of(s.drop_last());
        if separates(s.last()) {
            front.push(Seq::empty())
        } else {
            front.drop_last().push(front.last().push(s.last()))
        }
    }
}

/// The tags in a comment: first the words with a hash sign, then what stands between
/// separators in the rest.
pub open spec fn comment_tags(s: Seq<char>) -> Seq<Seq<char>> {
    hash_words(s) + parts_of(plain_part(s)).filter_map(|p: Seq<char>| described::clean_part(p))
}

// ── Executable ───────────────────────────────────────────────────────────────

/// The index of the first blank from an index on, or the length.
fn find_blank(cs: &Vec<char>, from: usize) -> (r: usize)
    requires
        from <= cs@.len(),
    ensures
        from <= r <= cs@.len(),
        r - from == blank_at(cs@.skip(from as int)),
{
    let ghost marks = cs@.skip(from as int).map_values(|c: char| text::is_space(c));
    let mut i: usize = from;
    while i < cs.len() && !char_is_space(cs[i])
        invariant
            from <= i <= cs@.len(),
            marks == cs@.skip(from as int).map_values(|c: char| text::is_space(c)),
            forall|k: int| 0 <= k < i - from ==> marks[k] != true,
        decreases cs@.len() - i,
    {
        assert(marks[i - from] == text::is_space(cs@[i as int]));
        i = i + 1;
    }
    proof {
        if i < cs@.len() {
            assert(marks[i - from] == text::is_space(cs@[i as int]));
        }
        text::lemma_first_at_is(marks, true, i - from);
    }
    i
}

/// The index of the first hash sign from an index on, or the length.
fn find_hash(cs: &Vec<char>, from: usize) -> (r: usize)
    requires
        from <= cs@.len(),
    ensures
        from <= r <= cs@.len(),
        r - from == text::first_at(cs@.skip(from as int), '#'),
{
    let rest = vstd::slice::slice_subrange(cs.as_slice(), from, cs.len());
    assert(rest@ =~= cs@.skip(from as int));
    proof {
        text::lemma_first_at(rest@, '#');
    }
    let k: usize = find_char(rest, '#');
    from + k
}

fn parts(cs: &Vec<char>) -> (r: Vec<Vec<char>>)
    ensures
        text::pieces(r@) == parts_of(cs@),
{
    let mut r: Vec<Vec<char>> = Vec::new();
    let mut current: Vec<char> = Vec::new();
    let mut i: usize = 0;
    assert(text::pieces(r@).push(current@) =~= parts_of(cs@.take(0)));
    while i < cs.len()
        invariant
            i <= cs@.len(),
            text::pieces(r@).push(current@) == parts_of(cs@.take(i as int)),
        decreases cs@.len() - i,
    {
        let ghost done = text::pieces(r@);
        let ghost now = current@;
        proof {
            assert(cs@.take(i + 1).drop_last() =~= cs@.take(i as int));
            assert(cs@.take(i + 1).last() == cs@[i as int]);
            assert(done.push(now).drop_last() =~= done);
            assert(done.push(now).last() == now);
        }
        let c = cs[i];
        if c == ',' || c == ';' || c == '\n' {
            r.push(current);
            current = Vec::new();
            proof {
                assert(text::pieces(r@) =~= done.push(now));
                assert(current@ =~= Seq::empty());
            }
        } else {
            current.push(c);
        }
        i = i + 1;
    }
    let ghost done = text::pieces(r@);
    let ghost now = current@;
    r.push(current);
    proof {
        assert(cs@.take(cs@.len() as int) =~= cs@);
        assert(text::pieces(r@) =~= done.push(now));
    }
    r
}

/// The tags in a comment: the words that begin with a hash sign, as they stand, and
/// what stands between commas, semicolons and line breaks in the rest.
pub fn parse_comment_tags(comment: &str) -> (r: Vec<String>)
    ensures
        text::texts(r@) == comment_tags(comment@),
{
    let cs = chars_of(comment);
    let ghost s = comment@;
    let mut r: Vec<String> = Vec::new();
    let mut plain: Vec<char> = Vec::new();
    let mut pos: usize = 0;
    proof {
        assert(s.skip(0) =~= s);
        assert(text::texts(r@) + hash_words(s.skip(0)) =~= hash_words(s));
        assert(plain@ + plain_part(s.skip(0)) =~= plain_part(s));
    }
    loop
        invariant_except_break
            pos <= cs@.len(),
            text::texts(r@) + hash_words(s.skip(pos as int)) == hash_words(s),
            plain@ + plain_part(s.skip(pos as int)) == plain_part(s),
        invariant
            cs@ == s,
            s == comment@,
        ensures
            text::texts(r@) == hash_words(s),
            plain@ == plain_part(s),
        decreases cs@.len() - pos,
    {
        let ghost rest = s.skip(pos as int);
        let ghost tokens = text::texts(r@);
        let ghost before = plain@;
        proof {
            lemma_word(rest);
        }
        let hash = find_hash(&cs, pos);
        let front = chars_between(&cs, pos, hash);
        assert(front@ =~= rest.take(hash - pos));
        let mut front = front;
        plain.append(&mut front);
        if hash >= cs.len() {
            proof {
                assert(rest.take(hash - pos) =~= rest);
                assert(tokens + Seq::<Seq<char>>::empty() =~= tokens);
            }
            break;
        }
        let end = find_blank(&cs, hash + 1);
        let ghost t = rest.skip(hash - pos);
        proof {
            assert(t.skip(1) =~= s.skip(hash + 1));
            assert(word_len(t) == end - hash);
            assert(t.skip(word_len(t)) =~= s.skip(end as int));
            assert(before + (rest.take(hash - pos) + plain_part(s.skip(end as int))) =~= plain@
                + plain_part(s.skip(end as int)));
        }
        if end - hash > 1 {
            let word = chars_between(&cs, hash, end);
            assert(word@ =~= t.take(word_len(t)));
            r.push(string_from_chars(&word));
            proof {
                assert(text::texts(r@) =~= tokens.push(word@));
                let after = hash_words(s.skip(end as int));
                assert(tokens + (seq![word@] + after) =~= tokens.push(word@) + after);
            }
        } else {
            assert(Seq::<Seq<char>>::empty() + hash_words(s.skip(end as int)) =~= hash_words(
                s.skip(end as int),
            ));
        }
        pos = end;
    }
    let pieces = parts(&plain);
    let ghost all = parts_of(plain@);
    let ghost base = text::texts(r@);
    let ghost f = |p: Seq<char>| described::clean_part(p);
    let mut i: usize = 0;
    proof {
        assert(text::pieces(pieces@).len() == pieces@.len());
        assert(all.take(0) =~= Seq::empty());
        assert(base + all.take(0).filter_map(f) =~= base);
    }
    while i < pieces.len()
        invariant
            i <= pieces@.len(),
            pieces@.len() == all.len(),
            text::pieces(pieces@) == all,
            f == (|p: Seq<char>| described::clean_part(p)),
            text::texts(r@) == base + all.take(i as int).filter_map(f),
        decreases pieces@.len() - i,
    {
        let ghost before = text::texts(r@);
        let ghost found = all.take(i as int).filter_map(f);
        proof {
            all.lemma_filter_map_take_succ(f, i as int);
            assert(text::pieces(pieces@)[i as int] == pieces@[i as int]@);
        }
        let part = trim_chars(&pieces[i]);
        if part.len() > 0 {
            r.push(string_from_chars(&part));
            proof {
                assert(text::texts(r@) =~= before.push(part@));
                assert(base + (found + seq![part@]) =~= (base + found).push(part@));
            }
        }
        assert(text::texts(r@) =~= base + all.take(i + 1).filter_map(f));
        i = i + 1;
    }
    assert(all.take(all.len() as int) =~= all);
    r
}

} // verus!

//! Reading the place-name dataset.
//!
//! Each line of the dataset is a comma-separated record whose last field
//! lists the phrases of a place name, separated by `:`. A phrase is written
//! `name_reading`; text after a second `_` is ignored, and a phrase without
//! `_` is skipped.
use vstd::prelude::*;

verus! {

/// The pieces of `s` between occurrences of `sep`, as `str::split` yields
/// them: always at least one piece, empty pieces included.
pub open spec fn split_on(s: Seq<char>, sep: char) -> Seq<Seq<char>>
    decreases s.len(),
{
    if s.len() == 0 {
        seq![Seq::empty()]
    } else {
        let rest = split_on(s.drop_last(), sep);
        if s.last() == sep {
            rest.push(Seq::empty())
        } else {
            rest.update(rest.len() - 1, rest.last().push(s.last()))
        }
    }
}

proof fn lemma_split_nonempty(s: Seq<char>, sep: char)
    ensures
        split_on(s, sep).len() >= 1,
    decreases s.len(),
{
    if s.len() > 0 {
        lemma_split_nonempty(s.drop_last(), sep);
    }
}

/// The `(name, reading)` pair of one phrase, if it has a reading.
pub open spec fn phrase_pair(phrase: Seq<char>) -> Option<(Seq<char>, Seq<char>)> {
    let parts = split_on(phrase, '_');
    if parts.len() >= 2 {
        Some((parts[0], parts[1]))
    } else {
        None
    }
}

/// The pairs of the phrases that have one, in order.
pub open spec fn phrase_pairs(phrases: Seq<Seq<char>>) -> Seq<(Seq<char>, Seq<char>)>
    decreases phrases.len(),
{
    if phrases.len() == 0 {
        Seq::empty()
    } else {
        phrase_pairs(phrases.drop_last()) + match phrase_pair(phrases.last()) {
            Some(p) => seq![p],
            None => Seq::empty(),
        }
    }
}

/// The phrases of a dataset line: those of its last comma-separated field.
pub open spec fn line_phrases(line: Seq<char>) -> Seq<(Seq<char>, Seq<char>)> {
    phrase_pairs(split_on(split_on(line, ',').last(), ':'))
}

pub open spec fn pieces_view(pieces: Seq<Vec<char>>) -> Seq<Seq<char>> {
    Seq::new(pieces.len(), |k: int| pieces[k]@)
}

/// Splits `s` at every `sep`.
pub fn split_chars(s: &Vec<char>, sep: char) -> (r: Vec<Vec<char>>)
    ensures
        pieces_view(r@) == split_on(s@, sep),
{
    let mut done: Vec<Vec<char>> = Vec::new();
    let mut current: Vec<char> = Vec::new();
    let mut i: usize = 0;
    while i < s.len()
        invariant
            i <= s@.len(),
            pieces_view(done@).push(current@) == split_on(s@.take(i as int), sep),
        decreases s@.len() - i,
    {
        let c = s[i];
        let ghost before = pieces_view(done@).push(current@);
        proof {
            assert(s@.take(i + 1).drop_last() =~= s@.take(i as int));
            lemma_split_nonempty(s@.take(i as int), sep);
        }
        if c == sep {
            let piece = current;
            current = Vec::new();
            done.push(piece);
            assert(pieces_view(done@) =~= before);
            assert(pieces_view(done@).push(current@) =~= split_on(s@.take(i + 1), sep));
        } else {
            current.push(c);
            assert(pieces_view(done@).push(current@) =~= before.update(
                before.len() - 1,
                before.last().push(c),
            ));
        }
        i = i + 1;
    }
    assert(s@.take(i as int) =~= s@);
    done.push(current);
    assert(pieces_view(done@) =~= split_on(s@, sep));
    done
}

pub open spec fn pairs_view(pairs: Seq<(Vec<char>, Vec<char>)>) -> Seq<(Seq<char>, Seq<char>)> {
    Seq::new(pairs.len(), |k: int| (pairs[k].0@, pairs[k].1@))
}

/// Reads one dataset line: `None` for an empty line, otherwise the
/// `(name, reading)` pairs of its phrases.
pub fn parse_dataset_line(line: &Vec<char>) -> (r: Option<Vec<(Vec<char>, Vec<char>)>>)
    ensures
        r.is_none() <==> line@.len() == 0,
        r matches Some(pairs) ==> pairs_view(pairs@) == line_phrases(line@),
{
    if line.len() == 0 {
        return None;
    }
    let fields = split_chars(line, ',');
    proof {
        lemma_split_nonempty(line@, ',');
    }
    let last = &fields[fields.len() - 1];
    assert(last@ == split_on(line@, ',').last());
    let phrases = split_chars(last, ':');
    let ghost phrase_views = pieces_view(phrases@);
    let mut pairs: Vec<(Vec<char>, Vec<char>)> = Vec::new();
    let mut k: usize = 0;
    while k < phrases.len()
        invariant
            k <= phrases@.len(),
            phrase_views == pieces_view(phrases@),
            pairs_view(pairs@) == phrase_pairs(phrase_views.take(k as int)),
        decreases phrases@.len() - k,
    {
        let parts = split_chars(&phrases[k], '_');
        let ghost before = pairs_view(pairs@);
        assert(phrase_views.take(k + 1).drop_last() =~= phrase_views.take(k as int));
        assert(phrase_views.take(k + 1).last() == phrases@[k as int]@);
        if parts.len() >= 2 {
            let name = parts[0].clone();
            let reading = parts[1].clone();
            assert(name@ =~= parts@[0]@);
            assert(reading@ =~= parts@[1]@);
            pairs.push((name, reading));
            assert(pairs_view(pairs@) =~= phrase_pairs(phrase_views.take(k + 1)));
        } else {
            assert(pairs_view(pairs@) =~= phrase_pairs(phrase_views.take(k + 1)));
        }
        k = k + 1;
    }
    assert(phrase_views.take(k as int) =~= phrase_views);
    Some(pairs)
}

} // verus!

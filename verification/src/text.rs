//! Text helpers shared by the protocol handlers: the characters of a string,
//! and the splitting and joining of space-separated address lists.
use vstd::prelude::*;
use vstd::string::StrSliceExecFns;
use vstd::string::StringExecFns;

verus! {

/// The pieces of `text` between its spaces, empty pieces included. A text
/// with `n` spaces has `n + 1` pieces.
pub open spec fn split_on_spaces(text: Seq<char>) -> Seq<Seq<char>>
    decreases text.len(),
{
    if text.len() == 0 {
        seq![Seq::<char>::empty()]
    } else {
        let before = split_on_spaces(text.drop_last());
        if text.last() == ' ' {
            before.push(Seq::<char>::empty())
        } else {
            before.drop_last().push(before.last().push(text.last()))
        }
    }
}

/// The words of `text`: its space-separated pieces that are not empty.
pub open spec fn split_words(text: Seq<char>) -> Seq<Seq<char>> {
    split_on_spaces(text).filter(|piece: Seq<char>| piece.len() > 0)
}

/// `words` written one after the other with a single space between neighbours.
pub open spec fn join_words(words: Seq<Seq<char>>) -> Seq<char>
    decreases words.len(),
{
    if words.len() == 0 {
        Seq::<char>::empty()
    } else if words.len() == 1 {
        words[0]
    } else {
        join_words(words.drop_last()) + seq![' '] + words.last()
    }
}

/// The texts held by a sequence of strings.
pub open spec fn texts(strings: Seq<String>) -> Seq<Seq<char>> {
    Seq::new(strings.len(), |i: int| strings[i]@)
}

/// Filtering a sequence that ends in `last` filters what precedes it and
/// keeps `last` where it passes.
proof fn lemma_filter_push<A>(s: Seq<A>, last: A, pred: spec_fn(A) -> bool)
    ensures
        s.push(last).filter(pred) == if pred(last) {
            s.filter(pred).push(last)
        } else {
            s.filter(pred)
        },
{
    reveal(Seq::filter);
    assert(s.push(last).drop_last() =~= s);
}

/// The characters of `text`, in order.
pub fn chars_of(text: &str) -> (chars: Vec<char>)
    ensures
        chars@ == text@,
{
    let mut chars: Vec<char> = Vec::new();
    for c in it: text.chars()
        invariant
            it.seq() == text@,
            chars@ == it.seq().take(it.index() as int),
    {
        chars.push(c);
        assert(it.seq().take(it.index() + 1) =~= it.seq().take(it.index() as int).push(c));
    }
    assert(chars@ =~= text@);
    chars
}

/// The words of `text`, in order: what lies between its spaces, the empty
/// pieces left out.
pub fn words(text: &str) -> (out: Vec<String>)
    ensures
        texts(out@) == split_words(text@),
{
    let chars = chars_of(text);
    let n = chars.len();
    let mut out: Vec<String> = Vec::new();
    let mut start: usize = 0;
    let mut i: usize = 0;
    let ghost nonempty = |piece: Seq<char>| piece.len() > 0;
    assert(text@.take(0) =~= Seq::<char>::empty());
    assert(split_on_spaces(text@.take(0)).drop_last() =~= Seq::<Seq<char>>::empty());
    assert(texts(out@) =~= Seq::<Seq<char>>::empty());
    while i < n
        invariant
            chars@ == text@,
            n == chars@.len(),
            start <= i <= n,
            nonempty == |piece: Seq<char>| piece.len() > 0,
            split_on_spaces(text@.take(i as int)).len() > 0,
            split_on_spaces(text@.take(i as int)).last() == text@.subrange(start as int, i as int),
            texts(out@) == split_on_spaces(text@.take(i as int)).drop_last().filter(nonempty),
        decreases n - i,
    {
        let ghost before = split_on_spaces(text@.take(i as int));
        let ghost after = split_on_spaces(text@.take(i + 1));
        assert(text@.take(i + 1).drop_last() =~= text@.take(i as int));
        assert(text@.take(i + 1).last() == text@[i as int]);
        if chars[i] == ' ' {
            assert(after == before.push(Seq::<char>::empty()));
            assert(after.drop_last() =~= before);
            assert(before =~= before.drop_last().push(before.last()));
            proof {
                lemma_filter_push(before.drop_last(), before.last(), nonempty);
            }
            if start < i {
                let word = text.substring_char(start, i).to_owned();
                let ghost prior = out@;
                out.push(word);
                assert(texts(out@) =~= texts(prior).push(before.last()));
            }
            start = i + 1;
            assert(after.last() =~= text@.subrange(start as int, i + 1));
        } else {
            assert(after == before.drop_last().push(before.last().push(text@[i as int])));
            assert(after.drop_last() =~= before.drop_last());
            assert(after.last() =~= text@.subrange(start as int, i + 1));
        }
        i = i + 1;
    }
    assert(text@.take(n as int) =~= text@);
    let ghost pieces = split_on_spaces(text@);
    assert(pieces =~= pieces.drop_last().push(pieces.last()));
    proof {
        lemma_filter_push(pieces.drop_last(), pieces.last(), nonempty);
    }
    if start < n {
        let word = text.substring_char(start, n).to_owned();
        let ghost prior = out@;
        out.push(word);
        assert(texts(out@) =~= texts(prior).push(pieces.last()));
    }
    out
}

/// `words` joined by single spaces.
pub fn join(words: &Vec<String>) -> (line: String)
    ensures
        line@ == join_words(texts(words@)),
{
    let mut line = String::new();
    let mut i: usize = 0;
    while i < words.len()
        invariant
            i <= words@.len(),
            line@ == join_words(texts(words@).take(i as int)),
        decreases words@.len() - i,
    {
        let ghost done = texts(words@).take(i as int);
        let ghost next = texts(words@).take(i + 1);
        assert(next.drop_last() =~= done);
        assert(next.last() == words@[i as int]@);
        if i > 0 {
            proof {
                reveal_strlit(" ");
            }
            line.append(" ");
            assert(" "@ =~= seq![' ']);
        }
        line.append(words[i].as_str());
        assert(line@ =~= join_words(next));
        i = i + 1;
    }
    assert(texts(words@).take(words@.len() as int) =~= texts(words@));
    line
}

/// Whether `word` can stand in a space-separated list: it is not empty and
/// holds no space.
pub open spec fn is_word(word: Seq<char>) -> bool {
    word.len() > 0 && forall|i: int| 0 <= i < word.len() ==> word[i] != ' '
}

/// Every text has at least one piece.
proof fn lemma_pieces_exist(text: Seq<char>)
    ensures
        split_on_spaces(text).len() > 0,
    decreases text.len(),
{
    if text.len() > 0 {
        lemma_pieces_exist(text.drop_last());
    }
}

/// Appending characters other than spaces extends the last piece.
proof fn lemma_split_append(text: Seq<char>, tail: Seq<char>)
    requires
        forall|i: int| 0 <= i < tail.len() ==> tail[i] != ' ',
    ensures
        split_on_spaces(text + tail) == split_on_spaces(text).drop_last().push(
            split_on_spaces(text).last() + tail,
        ),
    decreases tail.len(),
{
    let pieces = split_on_spaces(text);
    lemma_pieces_exist(text);
    if tail.len() == 0 {
        assert(text + tail =~= text);
        assert(pieces.last() + tail =~= pieces.last());
        assert(pieces =~= pieces.drop_last().push(pieces.last()));
    } else {
        lemma_split_append(text, tail.drop_last());
        let before = split_on_spaces(text + tail.drop_last());
        assert((text + tail).drop_last() =~= text + tail.drop_last());
        assert((text + tail).last() == tail.last());
        assert(before.drop_last() =~= pieces.drop_last());
        assert(before.last().push(tail.last()) =~= pieces.last() + tail);
    }
}

/// The pieces of a joined list of words are the words.
proof fn lemma_pieces_of_join(words: Seq<Seq<char>>)
    requires
        words.len() > 0,
        forall|i: int| 0 <= i < words.len() ==> is_word(#[trigger] words[i]),
    ensures
        split_on_spaces(join_words(words)) == words,
    decreases words.len(),
{
    let none = Seq::<char>::empty();
    if words.len() == 1 {
        assert(is_word(words[0]));
        lemma_split_append(none, words[0]);
        assert(none + words[0] =~= words[0]);
        assert(split_on_spaces(none) =~= seq![none]);
        assert(seq![none].drop_last().push(none + words[0]) =~= words);
    } else {
        let head = words.drop_last();
        let line = join_words(head) + seq![' '];
        assert forall|i: int| 0 <= i < head.len() implies is_word(#[trigger] head[i]) by {
            assert(head[i] == words[i]);
        }
        lemma_pieces_of_join(head);
        assert(line.drop_last() =~= join_words(head));
        assert(split_on_spaces(line) == head.push(none));
        assert(is_word(words[words.len() - 1]));
        lemma_split_append(line, words.last());
        assert(head.push(none).drop_last().push(none + words.last()) =~= words);
    }
}

/// Splitting undoes joining: a list of words, written as one line with
/// single spaces between them, is split into the same words again. So the
/// address list that a seed sends is the list that the joiner reads.
pub proof fn lemma_split_join(words: Seq<Seq<char>>)
    requires
        forall|i: int| 0 <= i < words.len() ==> is_word(#[trigger] words[i]),
    ensures
        split_words(join_words(words)) == words,
{
    let nonempty = |piece: Seq<char>| piece.len() > 0;
    if words.len() == 0 {
        let none = Seq::<char>::empty();
        assert(split_on_spaces(none) =~= Seq::<Seq<char>>::empty().push(none));
        lemma_filter_push(Seq::<Seq<char>>::empty(), none, nonempty);
        reveal(Seq::filter);
        assert(split_words(join_words(words)) =~= words);
    } else {
        lemma_pieces_of_join(words);
        lemma_filter_keeps_words(words);
    }
}

/// Leaving out the empty entries of a list of words leaves out none.
proof fn lemma_filter_keeps_words(words: Seq<Seq<char>>)
    requires
        forall|i: int| 0 <= i < words.len() ==> is_word(#[trigger] words[i]),
    ensures
        words.filter(|piece: Seq<char>| piece.len() > 0) == words,
    decreases words.len(),
{
    let nonempty = |piece: Seq<char>| piece.len() > 0;
    if words.len() == 0 {
        reveal(Seq::filter);
    } else {
        let head = words.drop_last();
        assert forall|i: int| 0 <= i < head.len() implies is_word(#[trigger] head[i]) by {
            assert(head[i] == words[i]);
        }
        lemma_filter_keeps_words(head);
        assert(is_word(words[words.len() - 1]));
        lemma_filter_push(head, words.last(), nonempty);
        assert(head.push(words.last()) =~= words);
    }
}

} // verus!

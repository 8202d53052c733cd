//! What a client reads of the head of an answer.
use vstd::prelude::*;

use crate::client::wire;
use crate::daemon::request;
use crate::text;

verus! {

proof fn lemma_word(word: Seq<char>, w: Seq<char>, c: char, rest: Seq<char>)
    requires
        text::white_space(c),
        word.len() + w.len() > 0,
        forall|i: int| 0 <= i < w.len() ==> !text::white_space(#[trigger] w[i]),
    ensures
        text::words_after(word, w + seq![c] + rest) == seq![word + w] + text::words(rest),
    decreases w.len(),
{
    let s = w + seq![c] + rest;
    if w.len() == 0 {
        assert(s.skip(1) =~= rest);
        assert(word + w =~= word);
    } else {
        let t = w.skip(1);
        assert forall|i: int| 0 <= i < t.len() implies !text::white_space(#[trigger] t[i]) by {
            assert(!text::white_space(w[i + 1]));
        }
        lemma_word(word.push(w[0]), t, c, rest);
        assert(s[0] == w[0]);
        assert(s.skip(1) =~= t + seq![c] + rest);
        assert(word.push(w[0]) + t =~= word + w);
    }
}

/// A text begins with a word just as it stands before white space, and its other words are those of
/// what follows.
pub proof fn law_words_stand_between_white_space(w: Seq<char>, c: char, rest: Seq<char>)
    requires
        text::white_space(c),
        w.len() > 0,
        forall|i: int| 0 <= i < w.len() ==> !text::white_space(#[trigger] w[i]),
    ensures
        text::words(w + seq![c] + rest) == seq![w] + text::words(rest),
        text::words(seq![c] + rest) == text::words(rest),
{
    lemma_word(Seq::empty(), w, c, rest);
    assert(Seq::<char>::empty() + w =~= w);
    assert((seq![c] + rest).skip(1) =~= rest);
    assert(Seq::<Seq<char>>::empty() + text::words(rest) =~= text::words(rest));
}

/// The status of an answer is the number behind the protocol, whatever reason follows.
pub proof fn law_status_is_read(protocol: Seq<char>, code: u16, reason: Seq<char>)
    requires
        protocol.len() > 0,
        forall|i: int| 0 <= i < protocol.len() ==> !text::white_space(#[trigger] protocol[i]),
    ensures
        wire::status_in(
            protocol + seq![' '] + (text::decimal(code as nat) + seq![' '] + reason),
        ) == Some(code),
{
    let d = text::decimal(code as nat);
    text::lemma_decimal(code as nat, u16::MAX as nat);
    assert forall|i: int| 0 <= i < d.len() implies !text::white_space(#[trigger] d[i]) by {
        assert('0' <= d[i] <= '9');
    }
    law_words_stand_between_white_space(protocol, ' ', d + seq![' '] + reason);
    law_words_stand_between_white_space(d, ' ', reason);
    let w = text::words(protocol + seq![' '] + (d + seq![' '] + reason));
    assert(w[1] == d);
}

/// The length of an answer is the number in the header of that name, however it is capitalised; any
/// other header leaves what is known.
pub proof fn law_length_is_read(known: Option<u64>, name: Seq<char>, n: u64)
    requires
        !name.contains(':'),
    ensures
        ({
            let line = name + seq![':'] + (seq![' '] + text::decimal(n as nat));
            &&& text::alike(name, "content-length"@) ==> wire::length_after(known, line) == Some(n)
            &&& !text::alike(name, "content-length"@) ==> wire::length_after(known, line) == known
            &&& wire::length_after(known, name) == known
        }),
{
    let d = text::decimal(n as nat);
    let v = seq![' '] + d;
    let line = name + seq![':'] + v;
    text::lemma_first(line, ':');
    text::lemma_first(name, ':');
    assert(line[name.len() as int] == ':');
    let at = text::first(line, ':') as int;
    assert(at == name.len()) by {
        if at < name.len() {
            assert(name[at] == line[at]);
        }
    }
    assert(line.take(at) =~= name);
    assert(line.skip(at + 1) =~= v);
    assert(request::cut(line, ':') == Some((name, v)));
    text::lemma_decimal(n as nat, u64::MAX as nat);
    text::lemma_stripped_whole(d);
    lemma_blank_before(d);
}

proof fn lemma_blank_before(d: Seq<char>)
    ensures
        text::stripped(seq![' '] + d) == text::stripped(d),
{
    assert((seq![' '] + d).drop_first() =~= d);
    assert((seq![' '] + d).skip(1) =~= d);
}

} // verus!

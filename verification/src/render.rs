//! Rendering of text: runs of three or more equal characters shrink to two.

use vstd::prelude::*;

verus! {

/// Whether the character at `i` survives the collapse: it does unless the two
/// characters before it are both equal to it.
pub open spec fn kept(s: Seq<char>, i: int) -> bool {
    i < 2 || s[i] != s[i - 1] || s[i] != s[i - 2]
}

/// The text `s` with every run of three or more equal characters cut to two.
pub open spec fn collapse(s: Seq<char>) -> Seq<char>
    decreases s.len(),
{
    if s.len() == 0 {
        Seq::empty()
    } else if kept(s, s.len() - 1) {
        collapse(s.drop_last()).push(s.last())
    } else {
        collapse(s.drop_last())
    }
}

/// No three neighbouring characters of `s` are equal.
pub open spec fn no_triple(s: Seq<char>) -> bool {
    forall|i: int| 2 <= i < s.len() ==> #[trigger] kept(s, i)
}

/// A collapsed text is no longer than its source and ends as its source ends.
pub proof fn lemma_collapse_last(s: Seq<char>)
    ensures
        collapse(s).len() <= s.len(),
        s.len() > 0 ==> collapse(s).len() > 0 && collapse(s).last() == s.last(),
        s.len() >= 2 ==> collapse(s).len() >= 2,
    decreases s.len(),
{
    if s.len() > 0 {
        let p = s.drop_last();
        lemma_collapse_last(p);
        if s.len() >= 3 {
            lemma_collapse_last(p.drop_last());
        }
    }
}

/// Where a collapsed text ends in two equal characters, so does its source.
pub proof fn lemma_collapse_tail_pair(s: Seq<char>)
    requires
        collapse(s).len() >= 2,
        collapse(s)[collapse(s).len() - 1] == collapse(s)[collapse(s).len() - 2],
    ensures
        s.len() >= 2,
        s[s.len() - 1] == s[s.len() - 2],
{
    lemma_collapse_last(s);
    if s.len() > 0 {
        lemma_collapse_last(s.drop_last());
    }
}

/// The collapse of any text holds no three equal neighbours.
pub proof fn lemma_collapse_no_triple(s: Seq<char>)
    ensures
        no_triple(collapse(s)),
    decreases s.len(),
{
    if s.len() > 0 {
        let p = s.drop_last();
        let init = collapse(p);
        lemma_collapse_no_triple(p);
        if kept(s, s.len() - 1) {
            let r = init.push(s.last());
            assert forall|i: int| 2 <= i < r.len() implies #[trigger] kept(r, i) by {
                if i < init.len() {
                    assert(kept(init, i));
                } else if r[i] == r[i - 1] && r[i] == r[i - 2] {
                    lemma_collapse_last(p);
                    lemma_collapse_tail_pair(p);
                }
            }
        }
    }
}

/// A text without three equal neighbours is its own collapse.
pub proof fn lemma_collapse_fixed(s: Seq<char>)
    requires
        no_triple(s),
    ensures
        collapse(s) == s,
    decreases s.len(),
{
    if s.len() > 0 {
        let p = s.drop_last();
        assert forall|i: int| 2 <= i < p.len() implies #[trigger] kept(p, i) by {
            assert(kept(s, i));
        }
        lemma_collapse_fixed(p);
        if s.len() >= 3 {
            assert(kept(s, s.len() - 1));
        }
        assert(p.push(s.last()) =~= s);
    }
}

/// Collapsing twice gives what collapsing once gives.
pub proof fn lemma_collapse_idempotent(s: Seq<char>)
    ensures
        collapse(collapse(s)) == collapse(s),
        no_triple(collapse(s)),
{
    lemma_collapse_no_triple(s);
    lemma_collapse_fixed(collapse(s));
}

/// `String::push`: the character is appended to the text.
#[verifier::external_body]
pub(crate) fn push_char(text: &mut String, c: char)
    ensures
        final(text)@ == old(text)@.push(c),
{
    text.push(c);
}

/// Copies `input`, leaving out each character that follows two equal ones.
pub fn remove_repeated_chars(input: &str) -> (output: String)
    ensures
        output@ == collapse(input@),
        no_triple(output@),
        collapse(output@) == output@,
{
    broadcast use vstd::string::axiom_spec_iter;

    let mut output = String::new();
    let mut prev: Option<char> = None;
    let mut count: u8 = 1;
    for c in it: input.chars()
        invariant
            it.seq() == input@,
            output@ == collapse(input@.take(it.index() as int)),
            it.index() == 0 <==> prev is None,
            it.index() > 0 ==> prev == Some(input@[it.index() - 1]),
            count == 1 || count == 2,
            count == 2 <==> (it.index() >= 2 && input@[it.index() - 1] == input@[it.index() - 2]),
    {
        let ghost i = it.index() as int;
        let same = match prev {
            Some(p) => p == c,
            None => false,
        };
        let run_of_three = same && count == 2;
        proof {
            let t = input@.take(i + 1);
            assert(t.drop_last() =~= input@.take(i));
            assert(t.last() == c);
            assert(kept(t, i) <==> !run_of_three);
        }
        if !run_of_three {
            push_char(&mut output, c);
        }
        count = if same { 2 } else { 1 };
        prev = Some(c);
    }
    proof {
        assert(input@.take(input@.len() as int) =~= input@);
        lemma_collapse_idempotent(input@);
    }
    output
}

} // verus!

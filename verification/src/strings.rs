//! Strings, character by character.

use vstd::prelude::*;

verus! {

/// `String::push`: the character is added at the end. Not proved.
#[verifier::external_body]
pub(crate) fn string_push(s: &mut String, c: char)
    ensures
        final(s)@ == old(s)@.push(c),
{
    s.push(c)
}

/// `String::pop`: the last character is taken off and returned; an empty
/// string stays empty. Not proved.
#[verifier::external_body]
pub(crate) fn string_pop(s: &mut String) -> (c: Option<char>)
    ensures
        old(s)@.len() == 0 ==> c is None && final(s)@ == old(s)@,
        old(s)@.len() > 0 ==> c == Some(old(s)@.last()) && final(s)@ == old(s)@.drop_last(),
{
    s.pop()
}

/// The fields of `s` between its blanks. There is one field more than there
/// are blanks, and two blanks in a row have an empty field between them.
pub open spec fn fields(s: Seq<char>) -> Seq<Seq<char>>
    decreases s.len(),
{
    if s.len() == 0 {
        seq![Seq::empty()]
    } else {
        let init = fields(s.drop_last());
        if s.last() == ' ' {
            init.push(Seq::empty())
        } else {
            init.update(init.len() - 1, init.last().push(s.last()))
        }
    }
}

/// The views of a list of strings.
pub open spec fn views(v: Seq<String>) -> Seq<Seq<char>> {
    Seq::new(v.len(), |i: int| v[i]@)
}

pub proof fn lemma_fields_nonempty(s: Seq<char>)
    ensures
        fields(s).len() >= 1,
    decreases s.len(),
{
    if s.len() > 0 {
        lemma_fields_nonempty(s.drop_last());
    }
}

/// Splits `s` at every blank.
pub fn split_fields(s: &str) -> (out: Vec<String>)
    ensures
        views(out@) == fields(s@),
        out@.len() >= 1,
{
    let mut out: Vec<String> = Vec::new();
    let mut current = String::new();
    proof {
        lemma_fields_nonempty(s@);
    }
    for c in it: s.chars()
        invariant
            it.seq() == s@,
            views(out@).push(current@) == fields(s@.take(it.index() as int)),
    {
        let ghost done = s@.take(it.index() as int);
        let ghost next = s@.take(it.index() + 1);
        proof {
            assert(next.drop_last() =~= done);
            assert(next.last() == c);
            lemma_fields_nonempty(done);
        }
        if c == ' ' {
            out.push(current);
            current = String::new();
            proof {
                assert(views(out@).push(current@) =~= fields(done).push(Seq::empty()));
            }
        } else {
            let ghost before = current@;
            string_push(&mut current, c);
            proof {
                assert(views(out@).push(current@) =~= fields(done).update(
                    fields(done).len() - 1,
                    before.push(c),
                ));
            }
        }
    }
    proof {
        assert(s@.take(s@.len() as int) =~= s@);
    }
    let ghost head = views(out@);
    out.push(current);
    proof {
        assert(views(out@) =~= head.push(current@));
    }
    out
}

} // verus!

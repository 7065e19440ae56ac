//! Texts put together from parts.

use vstd::prelude::*;

verus! {

/// The parts in their order, with `sep` between every two of them.
pub open spec fn join(parts: Seq<Seq<char>>, sep: Seq<char>) -> Seq<char>
    decreases parts.len(),
{
    if parts.len() == 0 {
        Seq::empty()
    } else if parts.len() == 1 {
        parts[0]
    } else {
        parts[0] + sep + join(parts.drop_first(), sep)
    }
}

/// One more part at the end adds the separator and the part, or the part
/// alone where it is the first.
pub proof fn lemma_join_push(parts: Seq<Seq<char>>, sep: Seq<char>, part: Seq<char>)
    ensures
        join(parts.push(part), sep) == if parts.len() == 0 {
            part
        } else {
            join(parts, sep) + sep + part
        },
    decreases parts.len(),
{
    if parts.len() > 0 {
        let rest = parts.drop_first();
        assert(parts.push(part).drop_first() =~= rest.push(part));
        lemma_join_push(rest, sep, part);
        if parts.len() > 1 {
            assert(parts[0] + sep + (join(rest, sep) + sep + part) =~= (parts[0] + sep + join(
                rest,
                sep,
            )) + sep + part);
        }
    }
}

/// Appends `part` to `out`, after `sep` unless `part` is the first.
pub fn push_part(out: &mut String, first: bool, sep: &str, part: &str)
    ensures
        final(out)@ == if first {
            old(out)@ + part@
        } else {
            old(out)@ + sep@ + part@
        },
{
    if !first {
        out.append(sep);
    }
    out.append(part);
}

/// Appends the parts to `out`, with `sep` between every two of them.
pub fn append_joined(out: &mut String, parts: &Vec<&str>, sep: &str)
    ensures
        final(out)@ == old(out)@ + join(parts.deep_view(), sep@),
{
    let ghost all = parts.deep_view();
    let ghost start = out@;
    let mut i: usize = 0;
    assert(start + join(all.take(0), sep@) =~= start);
    while i < parts.len()
        invariant
            i <= parts.len(),
            all == parts.deep_view(),
            out@ == start + join(all.take(i as int), sep@),
        decreases parts.len() - i,
    {
        let part = parts[i];
        let ghost before = out@;
        push_part(out, i == 0, sep, part);
        proof {
            let done = all.take(i as int);
            assert(all.take(i + 1) =~= done.push(part@));
            lemma_join_push(done, sep@, part@);
            if i == 0 {
                assert(done =~= Seq::empty());
                assert(before =~= start);
            } else {
                assert(before + sep@ + part@ =~= start + (join(done, sep@) + sep@ + part@));
            }
        }
        i = i + 1;
    }
    assert(all.take(i as int) =~= all);
}

} // verus!

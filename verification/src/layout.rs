//! Pieces shared by the sbt reports.

use vstd::prelude::*;
use crate::text::{occurs_at, push_repeat, push_range, push_str, push_truncated, push_decimal, repeat, truncated, decimal};

verus! {

/// The widest a listed line may be before it is cut.
pub const LINE_WIDTH: usize = 120;

/// The views of some lines.
pub open spec fn line_views(ls: Seq<Vec<char>>) -> Seq<Seq<char>> {
    ls.map_values(|l: Vec<char>| l@)
}

/// The first `n` of `ls`, or all of them where there are fewer.
pub open spec fn first_n<T>(ls: Seq<T>, n: nat) -> Seq<T> {
    if ls.len() <= n {
        ls
    } else {
        ls.take(n as int)
    }
}

/// The rule under a report's heading: 39 box-drawing bars and a newline.
pub open spec fn rule_line() -> Seq<char> {
    repeat('═', 39).push('\n')
}

/// Each of `ls`, cut to `LINE_WIDTH`, after `lead` and before a newline.
pub open spec fn listed(ls: Seq<Seq<char>>, lead: Seq<char>) -> Seq<char>
    decreases ls.len(),
{
    if ls.len() == 0 {
        Seq::empty()
    } else {
        listed(ls.drop_last(), lead) + lead + truncated(ls.last(), LINE_WIDTH as nat) + seq!['\n']
    }
}

/// Each of `ls`, whole, numbered from 1 as `N. line` on a line of its own.
pub open spec fn numbered(ls: Seq<Seq<char>>) -> Seq<char>
    decreases ls.len(),
{
    if ls.len() == 0 {
        Seq::empty()
    } else {
        numbered(ls.drop_last()) + decimal(ls.len()) + seq!['.', ' '] + ls.last() + seq!['\n']
    }
}

/// Where the `k`-th of `ls` stands, after its lead and cut, in `listed(ls, lead)`.
pub proof fn lemma_listed_position(ls: Seq<Seq<char>>, lead: Seq<char>, k: int) -> (p: int)
    requires
        0 <= k < ls.len(),
    ensures
        occurs_at(listed(ls, lead), lead + truncated(ls[k], LINE_WIDTH as nat), p),
    decreases ls.len(),
{
    let front = listed(ls.drop_last(), lead);
    let entry = lead + truncated(ls[k], LINE_WIDTH as nat);
    if k == ls.len() - 1 {
        assert(listed(ls, lead) =~= front + entry + seq!['\n']);
        let p: int = front.len() as int;
        assert(listed(ls, lead).subrange(p, p + entry.len()) =~= entry);
        p
    } else {
        let rest = lead + truncated(ls.last(), LINE_WIDTH as nat) + seq!['\n'];
        assert(listed(ls, lead) =~= front + rest);
        let p = lemma_listed_position(ls.drop_last(), lead, k);
        assert(ls.drop_last()[k] == ls[k]);
        assert(listed(ls, lead).subrange(p, p + entry.len()) =~= front.subrange(p, p + entry.len()));
        p
    }
}

/// Where the `k`-th of `ls`, after its number `k + 1` and `. `, stands in
/// `numbered(ls)`.
pub proof fn lemma_numbered_entry(ls: Seq<Seq<char>>, k: int) -> (p: int)
    requires
        0 <= k < ls.len(),
    ensures
        occurs_at(numbered(ls), decimal((k + 1) as nat) + seq!['.', ' '] + ls[k], p),
    decreases ls.len(),
{
    let front = numbered(ls.drop_last());
    let entry = decimal((k + 1) as nat) + seq!['.', ' '] + ls[k];
    let tail = decimal(ls.len()) + seq!['.', ' '] + ls.last() + seq!['\n'];
    assert(numbered(ls) =~= front + tail);
    if k == ls.len() - 1 {
        let p: int = front.len() as int;
        assert(numbered(ls).subrange(p, p + entry.len()) =~= entry);
        p
    } else {
        let p = lemma_numbered_entry(ls.drop_last(), k);
        assert(ls.drop_last()[k] == ls[k]);
        assert(numbered(ls).subrange(p, p + entry.len()) =~= front.subrange(p, p + entry.len()));
        p
    }
}

/// Where the `k`-th of `ls` stands in `numbered(ls)`.
pub proof fn lemma_numbered_position(ls: Seq<Seq<char>>, k: int) -> (p: int)
    requires
        0 <= k < ls.len(),
    ensures
        occurs_at(numbered(ls), ls[k], p),
    decreases ls.len(),
{
    let front = numbered(ls.drop_last());
    let tail = decimal(ls.len()) + seq!['.', ' '] + ls.last() + seq!['\n'];
    assert(numbered(ls) =~= front + tail);
    if k == ls.len() - 1 {
        let p: int = front.len() as int + decimal(ls.len()).len() as int + 2;
        assert(numbered(ls).subrange(p, p + ls[k].len()) =~= ls[k]);
        p
    } else {
        let p = lemma_numbered_position(ls.drop_last(), k);
        assert(ls.drop_last()[k] == ls[k]);
        assert(numbered(ls).subrange(p, p + ls[k].len()) =~= front.subrange(p, p + ls[k].len()));
        p
    }
}

/// Appends the rule line.
pub fn push_rule(out: &mut Vec<char>)
    ensures
        final(out)@ == old(out)@ + rule_line(),
{
    let ghost start = out@;
    push_repeat(out, '═', 39);
    out.push('\n');
    assert(out@ =~= start + rule_line());
}

/// Appends the first `count` of `ls` as `listed` lays them out.
pub fn push_listed(out: &mut Vec<char>, ls: &Vec<Vec<char>>, count: usize, lead: &str)
    requires
        count <= ls@.len(),
    ensures
        final(out)@ == old(out)@ + listed(line_views(ls@).take(count as int), lead@),
{
    let ghost start = out@;
    let mut k: usize = 0;
    assert(line_views(ls@).take(0) =~= Seq::<Seq<char>>::empty());
    while k < count
        invariant
            k <= count <= ls@.len(),
            out@ == start + listed(line_views(ls@).take(k as int), lead@),
        decreases count - k,
    {
        let ghost before = out@;
        push_str(out, lead);
        push_truncated(out, ls[k].as_slice(), LINE_WIDTH);
        out.push('\n');
        let ghost next = line_views(ls@).take(k + 1);
        assert(next.drop_last() =~= line_views(ls@).take(k as int));
        assert(next.last() == ls@[k as int]@);
        assert(out@ =~= start + listed(next, lead@));
        k = k + 1;
    }
}

/// Appends the first `count` of `ls` as `numbered` lays them out.
pub fn push_numbered(out: &mut Vec<char>, ls: &Vec<Vec<char>>, count: usize)
    requires
        count <= ls@.len(),
    ensures
        final(out)@ == old(out)@ + numbered(line_views(ls@).take(count as int)),
{
    let ghost start = out@;
    let mut k: usize = 0;
    assert(line_views(ls@).take(0) =~= Seq::<Seq<char>>::empty());
    while k < count
        invariant
            k <= count <= ls@.len(),
            out@ == start + numbered(line_views(ls@).take(k as int)),
        decreases count - k,
    {
        push_decimal(out, (k + 1) as u64);
        out.push('.');
        out.push(' ');
        push_range(out, ls[k].as_slice(), 0, ls[k].len());
        assert(ls@[k as int]@.subrange(0, ls@[k as int]@.len() as int) =~= ls@[k as int]@);
        out.push('\n');
        let ghost next = line_views(ls@).take(k + 1);
        assert(next.drop_last() =~= line_views(ls@).take(k as int));
        assert(next.last() == ls@[k as int]@);
        assert(next.len() == k + 1);
        assert(out@ =~= start + numbered(next));
        k = k + 1;
    }
}

} // verus!

//! Suggestions, conflict resolution between them, and splicing them into text.

use vstd::prelude::*;
use crate::position::TextRange;

verus! {

/// An edit proposed by a rule: replace the bytes of `syntax_range` with `replace_with`.
#[derive(Debug, PartialEq)]
pub struct CheckSuggestion {
    pub syntax_range: TextRange,
    pub replace_with: Vec<u8>,
    pub message: Option<String>,
}

/// The order in which suggestions are applied: by range start, then by range end.
pub open spec fn range_le(a: TextRange, b: TextRange) -> bool {
    a.start < b.start || (a.start == b.start && a.end <= b.end)
}

/// `s` is ordered by the ranges of its suggestions.
pub open spec fn sorted_by_range(s: Seq<(usize, CheckSuggestion)>) -> bool {
    forall|i: int, j: int| 0 <= i < j < s.len() ==> range_le(#[trigger] s[i].1.syntax_range, #[trigger] s[j].1.syntax_range)
}

/// Entries `i` and `i + 1` of `s` propose edits of the very same range.
pub open spec fn conflicts_at(s: Seq<(usize, CheckSuggestion)>, i: int) -> bool {
    0 <= i && i + 1 < s.len() && s[i].1.syntax_range == s[i + 1].1.syntax_range
}

/// Entries `i` and `i + 1` conflict and come from the same rule.
pub open spec fn self_overlap_at(s: Seq<(usize, CheckSuggestion)>, i: int) -> bool {
    conflicts_at(s, i) && s[i].0 == s[i + 1].0
}

pub open spec fn has_self_overlap(s: Seq<(usize, CheckSuggestion)>) -> bool {
    exists|i: int| self_overlap_at(s, i)
}

/// `rule` lost a conflict: one of its suggestions comes right after another
/// one with the same range.
pub open spec fn is_overlapping_rule(s: Seq<(usize, CheckSuggestion)>, rule: usize) -> bool {
    exists|i: int| #[trigger] conflicts_at(s, i) && s[i + 1].0 == rule
}

/// The suggestions that survive conflict resolution: every suggestion of a
/// rule that lost a conflict is left out, the rest keep their order.
pub open spec fn surviving(s: Seq<(usize, CheckSuggestion)>) -> Seq<CheckSuggestion> {
    s.filter_map(survivor(s))
}

/// What is left of one entry of `s` after conflict resolution.
pub open spec fn survivor(s: Seq<(usize, CheckSuggestion)>) -> spec_fn((usize, CheckSuggestion)) -> Option<CheckSuggestion> {
    |p: (usize, CheckSuggestion)| if is_overlapping_rule(s, p.0) { None } else { Some(p.1) }
}

/// Replaces `range` of `text` by `rep`; a range that does not fit in `text`
/// leaves it as it is.
pub open spec fn splice(text: Seq<u8>, range: TextRange, rep: Seq<u8>) -> Seq<u8> {
    if range.valid_in(text.len()) {
        text.subrange(0, range.start as int) + rep + text.subrange(range.end as int, text.len() as int)
    } else {
        text
    }
}

/// The suggestions behind a sequence of references.
pub open spec fn deref_all(s: Seq<&CheckSuggestion>) -> Seq<CheckSuggestion> {
    s.map_values(|c: &CheckSuggestion| *c)
}

/// Applies the suggestions of `s` to `text`, the last one first.
pub open spec fn apply_all(text: Seq<u8>, s: Seq<CheckSuggestion>) -> Seq<u8>
    decreases s.len(),
{
    if s.len() == 0 {
        text
    } else {
        apply_all(splice(text, s.last().syntax_range, s.last().replace_with@), s.drop_last())
    }
}

/// The entries of `s` whose suggestion edits `r`, in order.
pub open spec fn with_range(s: Seq<(usize, CheckSuggestion)>, r: TextRange) -> Seq<(usize, CheckSuggestion)> {
    s.filter(|p: (usize, CheckSuggestion)| p.1.syntax_range == r)
}

/// `x` placed after every entry of the range-sorted `sorted` whose range is
/// not after its own.
pub open spec fn insert_by_range(sorted: Seq<(usize, CheckSuggestion)>, x: (usize, CheckSuggestion)) -> Seq<(usize, CheckSuggestion)>
    decreases sorted.len(),
{
    if sorted.len() == 0 {
        seq![x]
    } else if range_le(sorted.last().1.syntax_range, x.1.syntax_range) {
        sorted.push(x)
    } else {
        insert_by_range(sorted.drop_last(), x).push(sorted.last())
    }
}

/// `s` ordered by range, entries with equal ranges in their order in `s`:
/// the one result that a stable sort by range can give.
pub open spec fn stably_sorted(s: Seq<(usize, CheckSuggestion)>) -> Seq<(usize, CheckSuggestion)>
    decreases s.len(),
{
    if s.len() == 0 {
        s
    } else {
        insert_by_range(stably_sorted(s.drop_last()), s.last())
    }
}

/// Relies on std's `slice::sort_by_key`: a stable sort by the key that the
/// closure picks (here the range start, then the range end). It keeps every
/// item, and items with one key keep their order.
#[verifier::external_body]
fn sort_by_range(v: &mut Vec<(usize, CheckSuggestion)>)
    ensures
        final(v)@.to_multiset() == old(v)@.to_multiset(),
        sorted_by_range(final(v)@),
        forall|r: TextRange| #[trigger] with_range(final(v)@, r) == with_range(old(v)@, r),
        final(v)@ == stably_sorted(old(v)@),
{
    v.sort_by_key(|p| (p.1.syntax_range.start, p.1.syntax_range.end));
}

/// Sorts suggestions by range, as the autofix loop needs them.
pub fn sort_suggestions(v: &mut Vec<(usize, CheckSuggestion)>)
    ensures
        final(v)@.to_multiset() == old(v)@.to_multiset(),
        final(v)@.len() == old(v)@.len(),
        sorted_by_range(final(v)@),
        forall|r: TextRange| #[trigger] with_range(final(v)@, r) == with_range(old(v)@, r),
        final(v)@ == stably_sorted(old(v)@),
        forall|i: int| 0 <= i < final(v)@.len() ==> old(v)@.contains(#[trigger] final(v)@[i]),
{
    sort_by_range(v);
    proof {
        v@.to_multiset_ensures();
        old(v)@.to_multiset_ensures();
        assert forall|i: int| 0 <= i < v@.len() implies old(v)@.contains(#[trigger] v@[i]) by {
            assert(v@.contains(v@[i]));
            assert(v@.to_multiset().count(v@[i]) > 0);
            assert(old(v)@.to_multiset().count(v@[i]) > 0);
        }
    }
}

fn same_range(a: &TextRange, b: &TextRange) -> (r: bool)
    ensures
        r == (*a == *b),
{
    a.start == b.start && a.end == b.end
}

fn contains_rule(rules: &Vec<usize>, rule: usize) -> (r: bool)
    ensures
        r == rules@.contains(rule),
{
    let mut i: usize = 0;
    while i < rules.len()
        invariant
            i <= rules@.len(),
            forall|k: int| 0 <= k < i ==> rules@[k] != rule,
        decreases rules@.len() - i,
    {
        if rules[i] == rule {
            return true;
        }
        i = i + 1;
    }
    false
}

/// Scans neighbouring pairs of a range-sorted list. Fails with the position
/// of the first pair of equal ranges from one rule; otherwise yields each rule
/// that proposed a suggestion right after an equal-ranged one.
pub fn collect_overlapping_rules(s: &Vec<(usize, CheckSuggestion)>) -> (r: Result<Vec<usize>, usize>)
    ensures
        match r {
            Ok(rules) => !has_self_overlap(s@) && forall|rule: usize|
                rules@.contains(rule) <==> is_overlapping_rule(s@, rule),
            Err(i) => self_overlap_at(s@, i as int) && forall|j: int| 0 <= j < i ==> !self_overlap_at(s@, j),
        },
{
    let mut rules: Vec<usize> = Vec::new();
    let mut i: usize = 0;
    while i < s.len() && i + 1 < s.len()
        invariant
            forall|j: int| 0 <= j < i ==> !self_overlap_at(s@, j),
            forall|rule: usize| rules@.contains(rule) <==> exists|j: int| 0 <= j < i && #[trigger] conflicts_at(s@, j) && s@[j + 1].0 == rule,
        decreases s@.len() - i,
    {
        if same_range(&s[i].1.syntax_range, &s[i + 1].1.syntax_range) {
            if s[i].0 == s[i + 1].0 {
                return Err(i);
            }
            let rule = s[i + 1].0;
            let ghost before = rules@;
            rules.push(rule);
            proof {
                assert(rules@ == before.push(rule));
                assert(conflicts_at(s@, i as int));
                assert forall|r2: usize| rules@.contains(r2) <==> exists|j: int| 0 <= j < i + 1 && #[trigger] conflicts_at(s@, j) && s@[j + 1].0 == r2 by {
                    if rules@.contains(r2) && r2 != rule {
                        let k = choose|k: int| 0 <= k < rules@.len() && rules@[k] == r2;
                        assert(before[k] == r2);
                        assert(before.contains(r2));
                    }
                    if (exists|j: int| 0 <= j < i + 1 && #[trigger] conflicts_at(s@, j) && s@[j + 1].0 == r2) && r2 != rule {
                        let j = choose|j: int| 0 <= j < i + 1 && #[trigger] conflicts_at(s@, j) && s@[j + 1].0 == r2;
                        assert(j < i);
                        assert(before.contains(r2));
                        let k = choose|k: int| 0 <= k < before.len() && before[k] == r2;
                        assert(rules@[k] == r2);
                    }
                    if r2 == rule {
                        assert(rules@[rules@.len() - 1] == r2);
                    }
                }
            }
        } else {
            proof {
                assert(!conflicts_at(s@, i as int));
            }
        }
        i = i + 1;
    }
    proof {
        assert forall|j: int| !self_overlap_at(s@, j) by {
            if 0 <= j < i {
            } else {
                assert(!conflicts_at(s@, j));
            }
        }
        assert forall|rule: usize| rules@.contains(rule) <==> is_overlapping_rule(s@, rule) by {
            if is_overlapping_rule(s@, rule) {
                let j = choose|j: int| #[trigger] conflicts_at(s@, j) && s@[j + 1].0 == rule;
                assert(0 <= j < i);
            }
        }
    }
    Ok(rules)
}

/// Resolves conflicts in a range-sorted list of suggestions. Two neighbouring
/// suggestions with the very same range from one rule are an error (the
/// position of the first such pair); otherwise every suggestion of a rule that
/// lost a conflict is dropped and the rest are returned in order.
pub fn filter_overlapping_suggestions(s: &Vec<(usize, CheckSuggestion)>) -> (r: Result<Vec<&CheckSuggestion>, usize>)
    ensures
        match r {
            Ok(kept) => !has_self_overlap(s@) && deref_all(kept@) == surviving(s@),
            Err(i) => self_overlap_at(s@, i as int) && forall|j: int| 0 <= j < i ==> !self_overlap_at(s@, j),
        },
{
    let rules = match collect_overlapping_rules(s) {
        Ok(rules) => rules,
        Err(i) => return Err(i),
    };
    let mut kept: Vec<&CheckSuggestion> = Vec::new();
    let mut i: usize = 0;
    while i < s.len()
        invariant
            i <= s@.len(),
            forall|rule: usize| rules@.contains(rule) <==> is_overlapping_rule(s@, rule),
            deref_all(kept@) == s@.subrange(0, i as int).filter_map(survivor(s@)),
        decreases s@.len() - i,
    {
        proof {
            assert(s@.subrange(0, i + 1).drop_last() == s@.subrange(0, i as int));
            assert(s@.subrange(0, i + 1).last() == s@[i as int]);
        }
        let entry = &s[i];
        let ghost before = kept@;
        let ghost step = s@.subrange(0, i + 1);
        if !contains_rule(&rules, entry.0) {
            kept.push(&entry.1);
            proof {
                assert(survivor(s@)(step.last()) == Some(entry.1));
                assert(step.filter_map(survivor(s@)) == s@.subrange(0, i as int).filter_map(survivor(s@)) + seq![entry.1]);
                assert(deref_all(kept@) =~= deref_all(before) + seq![entry.1]);
            }
        } else {
            proof {
                assert(survivor(s@)(step.last()) is None);
            }
        }
        i = i + 1;
    }
    proof {
        assert(s@.subrange(0, s@.len() as int) == s@);
    }
    Ok(kept)
}

/// Copies `text` with the bytes of `range` replaced by `rep`.
fn splice_bytes(text: &Vec<u8>, range: &TextRange, rep: &Vec<u8>) -> (r: Vec<u8>)
    requires
        range.valid_in(text@.len()),
    ensures
        r@ == splice(text@, *range, rep@),
{
    let mut out: Vec<u8> = Vec::new();
    let mut i: usize = 0;
    while i < range.start
        invariant
            i <= range.start <= range.end <= text@.len(),
            out@ == text@.subrange(0, i as int),
        decreases range.start - i,
    {
        out.push(text[i]);
        proof {
            assert(text@.subrange(0, i + 1) == text@.subrange(0, i as int).push(text@[i as int]));
        }
        i = i + 1;
    }
    let mut j: usize = 0;
    while j < rep.len()
        invariant
            j <= rep@.len(),
            out@ == text@.subrange(0, range.start as int) + rep@.subrange(0, j as int),
        decreases rep@.len() - j,
    {
        out.push(rep[j]);
        proof {
            assert(rep@.subrange(0, j + 1) == rep@.subrange(0, j as int).push(rep@[j as int]));
        }
        j = j + 1;
    }
    proof {
        assert(rep@.subrange(0, rep@.len() as int) == rep@);
    }
    let mut k: usize = range.end;
    while k < text.len()
        invariant
            range.end <= k <= text@.len(),
            out@ == text@.subrange(0, range.start as int) + rep@ + text@.subrange(range.end as int, k as int),
        decreases text@.len() - k,
    {
        out.push(text[k]);
        proof {
            assert(text@.subrange(range.end as int, k + 1) == text@.subrange(range.end as int, k as int).push(text@[k as int]));
        }
        k = k + 1;
    }
    out
}

/// Applies suggestions to `source_code`, the last one first, so that a
/// suggestion earlier in range order sees the offsets it was computed against.
/// A suggestion whose range does not fit the text at its turn is skipped.
pub fn apply_suggestions_to_text(suggestions: Vec<&CheckSuggestion>, source_code: Vec<u8>) -> (r: Vec<u8>)
    ensures
        r@ == apply_all(source_code@, deref_all(suggestions@)),
{
    let mut text = source_code;
    let mut i: usize = suggestions.len();
    proof {
        assert(suggestions@.subrange(0, suggestions@.len() as int) == suggestions@);
    }
    while i > 0
        invariant
            i <= suggestions@.len(),
            apply_all(text@, deref_all(suggestions@.subrange(0, i as int))) == apply_all(source_code@, deref_all(suggestions@)),
        decreases i,
    {
        let sug = suggestions[i - 1];
        proof {
            let pre = deref_all(suggestions@.subrange(0, i as int));
            assert(pre.drop_last() =~= deref_all(suggestions@.subrange(0, i - 1)));
            assert(pre.last() == *sug);
        }
        if sug.syntax_range.start <= sug.syntax_range.end && sug.syntax_range.end <= text.len() {
            text = splice_bytes(&text, &sug.syntax_range, &sug.replace_with);
        }
        i = i - 1;
    }
    proof {
        assert(deref_all(suggestions@.subrange(0, 0)) =~= Seq::<CheckSuggestion>::empty());
        assert(suggestions@.subrange(0, suggestions@.len() as int) == suggestions@);
    }
    text
}

/// One rewrite of `source_code` with the suggestions of a range-sorted list:
/// the position of the first pair of equal ranges from one rule, or the text
/// with every surviving suggestion applied.
pub fn fix_text(sorted: &Vec<(usize, CheckSuggestion)>, source_code: Vec<u8>) -> (r: Result<Vec<u8>, usize>)
    ensures
        match r {
            Ok(text) => !has_self_overlap(sorted@) && text@ == apply_all(source_code@, surviving(sorted@)),
            Err(i) => self_overlap_at(sorted@, i as int) && forall|j: int| 0 <= j < i ==> !self_overlap_at(sorted@, j),
        },
{
    match filter_overlapping_suggestions(sorted) {
        Ok(kept) => Ok(apply_suggestions_to_text(kept, source_code)),
        Err(i) => Err(i),
    }
}

/// Two suggestions with different ranges, the first ending where or before
/// the second starts, are both applied in one rewrite, whichever rules made
/// them.
pub proof fn lemma_disjoint_suggestions_both_applied(a: (usize, CheckSuggestion), b: (usize, CheckSuggestion), text: Seq<u8>)
    requires
        a.1.syntax_range != b.1.syntax_range,
        a.1.syntax_range.start <= a.1.syntax_range.end <= b.1.syntax_range.start <= b.1.syntax_range.end <= text.len(),
    ensures
        sorted_by_range(seq![a, b]),
        !has_self_overlap(seq![a, b]),
        surviving(seq![a, b]) == seq![a.1, b.1],
        apply_all(text, surviving(seq![a, b])) == text.subrange(0, a.1.syntax_range.start as int) + a.1.replace_with@
            + text.subrange(a.1.syntax_range.end as int, b.1.syntax_range.start as int) + b.1.replace_with@
            + text.subrange(b.1.syntax_range.end as int, text.len() as int),
{
    let s = seq![a, b];
    assert(!conflicts_at(s, 0));
    assert forall|i: int| !self_overlap_at(s, i) by {
        assert(!conflicts_at(s, i));
    }
    assert forall|rule: usize| !is_overlapping_rule(s, rule) by {
        assert forall|i: int| !conflicts_at(s, i) by {}
    }
    assert(s.drop_last() == seq![a]);
    assert(seq![a].drop_last() == Seq::<(usize, CheckSuggestion)>::empty());
    let f = survivor(s);
    assert(f(a) == Some(a.1));
    assert(f(b) == Some(b.1));
    assert(Seq::<(usize, CheckSuggestion)>::empty().filter_map(f) == Seq::<CheckSuggestion>::empty());
    assert(seq![a].filter_map(f) =~= seq![a.1]);
    assert(s.filter_map(f) =~= seq![a.1, b.1]);
    let (ra, rb) = (a.1.syntax_range, b.1.syntax_range);
    let once = splice(text, rb, b.1.replace_with@);
    assert(seq![a.1, b.1].drop_last() == seq![a.1]);
    assert(seq![a.1].drop_last() == Seq::<CheckSuggestion>::empty());
    assert(once.subrange(0, ra.start as int) == text.subrange(0, ra.start as int));
    assert(once.subrange(ra.end as int, once.len() as int) =~= text.subrange(ra.end as int, rb.start as int) + b.1.replace_with@
        + text.subrange(rb.end as int, text.len() as int));
    assert(apply_all(once, Seq::<CheckSuggestion>::empty()) == once);
    assert(apply_all(splice(once, ra, a.1.replace_with@), Seq::<CheckSuggestion>::empty()) == splice(once, ra, a.1.replace_with@));
    assert(apply_all(once, seq![a.1]) == splice(once, ra, a.1.replace_with@));
    assert(apply_all(text, seq![a.1, b.1]) == apply_all(once, seq![a.1]));
    assert(apply_all(text, seq![a.1, b.1]) =~= text.subrange(0, ra.start as int) + a.1.replace_with@
        + text.subrange(ra.end as int, rb.start as int) + b.1.replace_with@ + text.subrange(rb.end as int, text.len() as int));
}

/// Two suggestions of one range from different rules: only the first one
/// survives, and the second one's rule has lost a conflict.
pub proof fn lemma_equal_ranges_first_rule_wins(a: (usize, CheckSuggestion), b: (usize, CheckSuggestion))
    requires
        a.1.syntax_range == b.1.syntax_range,
        a.0 != b.0,
    ensures
        sorted_by_range(seq![a, b]),
        !has_self_overlap(seq![a, b]),
        is_overlapping_rule(seq![a, b], b.0),
        !is_overlapping_rule(seq![a, b], a.0),
        surviving(seq![a, b]) == seq![a.1],
{
    let s = seq![a, b];
    assert(conflicts_at(s, 0));
    assert forall|i: int| !self_overlap_at(s, i) by {
        if i != 0 {
            assert(!conflicts_at(s, i));
        }
    }
    assert forall|i: int| #[trigger] conflicts_at(s, i) implies i == 0 by {}
    assert(s.drop_last() == seq![a]);
    assert(seq![a].drop_last() == Seq::<(usize, CheckSuggestion)>::empty());
    let f = survivor(s);
    assert(f(a) == Some(a.1));
    assert(f(b) is None);
    assert(Seq::<(usize, CheckSuggestion)>::empty().filter_map(f) == Seq::<CheckSuggestion>::empty());
    assert(seq![a].filter_map(f) =~= seq![a.1]);
    assert(s.filter_map(f) =~= seq![a.1]);
}

/// Two suggestions of one range from the same rule are a self-overlap of
/// that rule.
pub proof fn lemma_equal_ranges_same_rule_fails(a: (usize, CheckSuggestion), b: (usize, CheckSuggestion))
    requires
        a.1.syntax_range == b.1.syntax_range,
        a.0 == b.0,
    ensures
        has_self_overlap(seq![a, b]),
        self_overlap_at(seq![a, b], 0),
{
    assert(self_overlap_at(seq![a, b], 0));
}

} // verus!

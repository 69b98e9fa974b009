use vstd::prelude::*;

use core::cmp::Ordering;
use vstd::multiset::Multiset;
use vstd::utf8::encode_utf8;

verus! {

/// How many entries the ranking keeps.
pub const MAX_ENTRIES: usize = 20;

/// One finished game in the ranking. `time` is when it ended, written so that
/// later times compare greater.
pub struct HighscoreEntry {
    pub name: String,
    pub score: i32,
    pub lines: i32,
    pub level: i32,
    pub duration: u32,
    pub time: String,
}

/// The duration given to stored entries that lack one: 99:59 in milliseconds.
pub fn default_duration() -> (r: u32)
    ensures
        r == (99 * 60 + 59) * 1000,
{
    (99 * 60 + 59) * 1000
}

/// Byte-wise lexicographic order, as `str` orders.
pub open spec fn lex_cmp(a: Seq<u8>, b: Seq<u8>) -> Ordering
    decreases a.len(),
{
    if a.len() == 0 {
        if b.len() == 0 {
            Ordering::Equal
        } else {
            Ordering::Less
        }
    } else if b.len() == 0 {
        Ordering::Greater
    } else if a[0] < b[0] {
        Ordering::Less
    } else if a[0] > b[0] {
        Ordering::Greater
    } else {
        lex_cmp(a.drop_first(), b.drop_first())
    }
}

/// The bytes of the end time of `e`.
pub open spec fn time_bytes(e: HighscoreEntry) -> Seq<u8> {
    encode_utf8(e.time@)
}

/// Where `a` ranks against `b`: `Less` when `a` ranks first. Higher score
/// first; on a tie more lines, then a higher level, then a shorter duration,
/// then the later end time.
#[verifier::opaque]
pub open spec fn rank_cmp(a: HighscoreEntry, b: HighscoreEntry) -> Ordering {
    if a.score != b.score {
        if a.score > b.score {
            Ordering::Less
        } else {
            Ordering::Greater
        }
    } else if a.lines != b.lines {
        if a.lines > b.lines {
            Ordering::Less
        } else {
            Ordering::Greater
        }
    } else if a.level != b.level {
        if a.level > b.level {
            Ordering::Less
        } else {
            Ordering::Greater
        }
    } else if a.duration != b.duration {
        if a.duration < b.duration {
            Ordering::Less
        } else {
            Ordering::Greater
        }
    } else {
        lex_cmp(time_bytes(b), time_bytes(a))
    }
}

fn compare_bytes(a: &[u8], b: &[u8]) -> (r: Ordering)
    ensures
        r == lex_cmp(a@, b@),
{
    let mut i: usize = 0;
    assert(a@.skip(0) =~= a@);
    assert(b@.skip(0) =~= b@);
    while i < a.len() && i < b.len() && a[i] == b[i]
        invariant
            i <= a.len(),
            i <= b.len(),
            lex_cmp(a@, b@) == lex_cmp(a@.skip(i as int), b@.skip(i as int)),
        decreases a.len() - i,
    {
        assert(a@.skip(i as int).drop_first() =~= a@.skip(i + 1));
        assert(b@.skip(i as int).drop_first() =~= b@.skip(i + 1));
        i = i + 1;
    }
    assert(a@.skip(i as int).len() == a.len() - i);
    if i < a.len() {
        assert(a@.skip(i as int)[0] == a@[i as int]);
    }
    if i < b.len() {
        assert(b@.skip(i as int)[0] == b@[i as int]);
    }
    if i == a.len() {
        if i == b.len() {
            Ordering::Equal
        } else {
            Ordering::Less
        }
    } else if i == b.len() {
        Ordering::Greater
    } else if a[i] < b[i] {
        Ordering::Less
    } else {
        Ordering::Greater
    }
}

impl HighscoreEntry {
    /// Where `self` ranks against `other`: `Less` when `self` ranks first.
    pub fn cmp_rank(&self, other: &Self) -> (r: Ordering)
        ensures
            r == rank_cmp(*self, *other),
    {
        proof {
            reveal(rank_cmp);
        }
        if self.score != other.score {
            if self.score > other.score {
                Ordering::Less
            } else {
                Ordering::Greater
            }
        } else if self.lines != other.lines {
            if self.lines > other.lines {
                Ordering::Less
            } else {
                Ordering::Greater
            }
        } else if self.level != other.level {
            if self.level > other.level {
                Ordering::Less
            } else {
                Ordering::Greater
            }
        } else if self.duration != other.duration {
            if self.duration < other.duration {
                Ordering::Less
            } else {
                Ordering::Greater
            }
        } else {
            compare_bytes(other.time.as_str().as_bytes(), self.time.as_str().as_bytes())
        }
    }
}


/// `s` with `e` placed before the first entry that `e` ranks strictly before
/// (at the end if there is none): after all entries that rank with or before it.
pub open spec fn insert_ranked(s: Seq<HighscoreEntry>, e: HighscoreEntry) -> Seq<HighscoreEntry>
    decreases s.len(),
{
    if s.len() == 0 {
        seq![e]
    } else if rank_cmp(e, s[0]) == Ordering::Less {
        seq![e] + s
    } else {
        seq![s[0]] + insert_ranked(s.drop_first(), e)
    }
}

/// `s` sorted by rank, stably (entries that rank alike keep their order).
pub open spec fn sort_ranked(s: Seq<HighscoreEntry>) -> Seq<HighscoreEntry>
    decreases s.len(),
{
    if s.len() == 0 {
        s
    } else {
        insert_ranked(sort_ranked(s.drop_last()), s.last())
    }
}

/// The first `MAX_ENTRIES` entries of `s`.
pub open spec fn kept(s: Seq<HighscoreEntry>) -> Seq<HighscoreEntry> {
    if s.len() > MAX_ENTRIES {
        s.take(MAX_ENTRIES as int)
    } else {
        s
    }
}

/// Whether each entry of `s` ranks with or before the next one.
pub open spec fn is_ranked(s: Seq<HighscoreEntry>) -> bool {
    forall|i: int| 0 <= i < s.len() - 1 ==> rank_cmp(#[trigger] s[i], s[i + 1]) != Ordering::Greater
}

proof fn lemma_insert_at(s: Seq<HighscoreEntry>, e: HighscoreEntry, j: int)
    requires
        0 <= j <= s.len(),
        forall|k: int| 0 <= k < j ==> rank_cmp(e, #[trigger] s[k]) != Ordering::Less,
        j < s.len() ==> rank_cmp(e, s[j]) == Ordering::Less,
    ensures
        insert_ranked(s, e) == s.take(j) + seq![e] + s.skip(j),
    decreases j,
{
    if j == 0 {
        if s.len() == 0 {
            assert(s.take(0) + seq![e] + s.skip(0) =~= seq![e]);
        } else {
            assert(s.take(0) + seq![e] + s.skip(0) =~= seq![e] + s);
        }
    } else {
        let t = s.drop_first();
        assert forall|k: int| 0 <= k < j - 1 implies rank_cmp(e, #[trigger] t[k]) != Ordering::Less by {
            assert(t[k] == s[k + 1]);
        }
        lemma_insert_at(t, e, j - 1);
        assert(rank_cmp(e, s[0]) != Ordering::Less);
        assert(seq![s[0]] + (t.take(j - 1) + seq![e] + t.skip(j - 1)) =~= s.take(j) + seq![e]
            + s.skip(j));
    }
}

fn insert_entry(sorted: &mut Vec<HighscoreEntry>, e: HighscoreEntry)
    ensures
        final(sorted)@ == insert_ranked(old(sorted)@, e),
{
    let mut j: usize = 0;
    let mut found = false;
    while j < sorted.len() && !found
        invariant
            j <= sorted.len(),
            sorted@ == old(sorted)@,
            forall|k: int| 0 <= k < j ==> rank_cmp(e, #[trigger] sorted@[k]) != Ordering::Less,
            found ==> j < sorted.len() && rank_cmp(e, sorted@[j as int]) == Ordering::Less,
        decreases sorted.len() - j + (if found {
            0int
        } else {
            1int
        }),
    {
        match e.cmp_rank(&sorted[j]) {
            Ordering::Less => {
                found = true;
            },
            _ => {
                j = j + 1;
            },
        }
    }
    proof {
        lemma_insert_at(sorted@, e, j as int);
    }
    let ghost s0 = sorted@;
    sorted.insert(j, e);
    assert(sorted@ =~= s0.take(j as int) + seq![e] + s0.skip(j as int));
}

fn sort_entries(entries: Vec<HighscoreEntry>) -> (r: Vec<HighscoreEntry>)
    ensures
        r@ == sort_ranked(entries@),
{
    let ghost orig = entries@;
    let mut rest = entries;
    let mut sorted: Vec<HighscoreEntry> = Vec::new();
    let ghost mut i: int = 0;
    assert(orig.take(0) =~= Seq::<HighscoreEntry>::empty());
    while rest.len() > 0
        invariant
            0 <= i <= orig.len(),
            rest@ == orig.skip(i),
            sorted@ == sort_ranked(orig.take(i)),
        decreases rest.len(),
    {
        let e = rest.remove(0);
        assert(e == orig[i]);
        insert_entry(&mut sorted, e);
        proof {
            assert(orig.take(i + 1).drop_last() =~= orig.take(i));
            assert(orig.take(i + 1).last() == e);
            assert(rest@ =~= orig.skip(i + 1));
            i = i + 1;
        }
    }
    assert(orig.take(i) =~= orig);
    sorted
}

/// Adds `entry` to the ranking `entries`: the list is sorted by rank and only
/// the best `MAX_ENTRIES` are kept.
pub fn add_entry(entries: &mut Vec<HighscoreEntry>, entry: HighscoreEntry)
    ensures
        final(entries)@ == kept(sort_ranked(old(entries)@.push(entry))),
{
    let mut all: Vec<HighscoreEntry> = Vec::new();
    std::mem::swap(&mut all, entries);
    all.push(entry);
    let mut sorted = sort_entries(all);
    let ghost full = sorted@;
    while sorted.len() > MAX_ENTRIES
        invariant
            sorted.len() >= MAX_ENTRIES || sorted@ == full,
            sorted.len() <= full.len(),
            sorted@ == full.take(sorted.len() as int),
        decreases sorted.len(),
    {
        sorted.pop();
    }
    assert(sorted@ =~= kept(full));
    *entries = sorted;
}


proof fn lemma_lex_antisymmetric(a: Seq<u8>, b: Seq<u8>)
    ensures
        lex_cmp(a, b) == Ordering::Less <==> lex_cmp(b, a) == Ordering::Greater,
    decreases a.len(),
{
    if a.len() > 0 && b.len() > 0 && a[0] == b[0] {
        lemma_lex_antisymmetric(a.drop_first(), b.drop_first());
    }
}

proof fn lemma_rank_antisymmetric(a: HighscoreEntry, b: HighscoreEntry)
    ensures
        rank_cmp(a, b) == Ordering::Less <==> rank_cmp(b, a) == Ordering::Greater,
{
    reveal(rank_cmp);
    lemma_lex_antisymmetric(time_bytes(b), time_bytes(a));
}

proof fn lemma_empty_multiset()
    ensures
        Seq::<HighscoreEntry>::empty().to_multiset() =~= Multiset::<HighscoreEntry>::empty(),
{
    broadcast use vstd::seq_lib::group_to_multiset_ensures;

    vstd::multiset::lemma_multiset_empty_len(Seq::<HighscoreEntry>::empty().to_multiset());
}

proof fn lemma_insert_ranked_multiset(s: Seq<HighscoreEntry>, e: HighscoreEntry)
    ensures
        insert_ranked(s, e).to_multiset() == s.to_multiset().insert(e),
    decreases s.len(),
{
    broadcast use vstd::multiset::group_multiset_axioms;

    let empty = Seq::<HighscoreEntry>::empty();
    lemma_empty_multiset();
    assert(seq![e] =~= empty.push(e));
    vstd::seq_lib::to_multiset_build(empty, e);
    if s.len() == 0 {
        assert(s =~= empty);
    } else if rank_cmp(e, s[0]) == Ordering::Less {
        vstd::seq_lib::lemma_multiset_commutative(seq![e], s);
        assert(seq![e].to_multiset().add(s.to_multiset()) =~= s.to_multiset().insert(e));
    } else {
        let t = s.drop_first();
        lemma_insert_ranked_multiset(t, e);
        assert(seq![s[0]] =~= empty.push(s[0]));
        vstd::seq_lib::to_multiset_build(empty, s[0]);
        let it = insert_ranked(t, e);
        vstd::seq_lib::lemma_multiset_commutative(seq![s[0]], it);
        vstd::seq_lib::lemma_multiset_commutative(seq![s[0]], t);
        assert(s =~= seq![s[0]] + t);
        assert(insert_ranked(s, e) == seq![s[0]] + it);
        let m0 = seq![s[0]].to_multiset();
        assert((seq![s[0]] + it).to_multiset() == m0.add(it.to_multiset()));
        assert(it.to_multiset() == t.to_multiset().insert(e));
        assert(m0.add(t.to_multiset().insert(e)) =~= m0.add(t.to_multiset()).insert(e));
        assert(s.to_multiset() == m0.add(t.to_multiset()));
    }
}

#[verifier::rlimit(60)]
proof fn lemma_insert_ranked(s: Seq<HighscoreEntry>, e: HighscoreEntry)
    ensures
        insert_ranked(s, e).len() == s.len() + 1,
        is_ranked(s) ==> is_ranked(insert_ranked(s, e)),
        s.len() > 0 ==> insert_ranked(s, e)[0] == s[0] || insert_ranked(s, e)[0] == e,
    decreases s.len(),
{
    if s.len() == 0 {
    } else if rank_cmp(e, s[0]) == Ordering::Less {
        let r = seq![e] + s;
        if is_ranked(s) {
            assert forall|i: int| 0 <= i < r.len() - 1 implies rank_cmp(
                #[trigger] r[i],
                r[i + 1],
            ) != Ordering::Greater by {
                if i > 0 {
                    assert(r[i] == s[i - 1]);
                    assert(r[i + 1] == s[i]);
                }
            }
        }
    } else {
        let t = s.drop_first();
        lemma_insert_ranked(t, e);
        let it = insert_ranked(t, e);
        let r = seq![s[0]] + it;
        if is_ranked(s) {
            lemma_rank_antisymmetric(e, s[0]);
            assert(is_ranked(t)) by {
                assert forall|i: int| 0 <= i < t.len() - 1 implies rank_cmp(
                    #[trigger] t[i],
                    t[i + 1],
                ) != Ordering::Greater by {
                    assert(rank_cmp(s[i + 1], s[i + 2]) != Ordering::Greater);
                }
            }
            assert forall|i: int| 0 <= i < r.len() - 1 implies rank_cmp(
                #[trigger] r[i],
                r[i + 1],
            ) != Ordering::Greater by {
                if i == 0 {
                    if t.len() > 0 {
                        assert(rank_cmp(s[0], s[1]) != Ordering::Greater);
                    }
                } else {
                    assert(r[i] == it[i - 1]);
                    assert(r[i + 1] == it[i]);
                }
            }
        }
    }
}

#[verifier::rlimit(60)]
proof fn lemma_sort_ranked(s: Seq<HighscoreEntry>)
    ensures
        sort_ranked(s).len() == s.len(),
        sort_ranked(s).to_multiset() == s.to_multiset(),
        is_ranked(sort_ranked(s)),
    decreases s.len(),
{
    if s.len() > 0 {
        lemma_sort_ranked(s.drop_last());
        lemma_insert_ranked(sort_ranked(s.drop_last()), s.last());
        lemma_insert_ranked_multiset(sort_ranked(s.drop_last()), s.last());
        vstd::seq_lib::to_multiset_build(s.drop_last(), s.last());
        assert(s =~= s.drop_last().push(s.last()));
    } else {
        assert(sort_ranked(s) == s);
    }
}

/// Adding an entry to a full ranking keeps all but one of the twenty-one
/// entries: the merged list (the old entries and the new one, sorted by rank)
/// loses its last, lowest-ranked, entry.
pub proof fn lemma_full_ranking_drops_last(s: Seq<HighscoreEntry>, e: HighscoreEntry)
    requires
        s.len() == MAX_ENTRIES,
    ensures
        ({
            let merged = sort_ranked(s.push(e));
            &&& merged.len() == MAX_ENTRIES + 1
            &&& merged.to_multiset() == s.push(e).to_multiset()
            &&& is_ranked(merged)
            &&& kept(merged) == merged.drop_last()
        }),
{
    let merged = sort_ranked(s.push(e));
    lemma_sort_ranked(s.push(e));
    assert(kept(merged) =~= merged.drop_last());
}

} // verus!

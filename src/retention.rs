use itertools::Itertools;
use vstd::prelude::*;

verus! {

/// An immediate child of the log directory, as a listing reports it.
pub struct ListedEntry {
    pub name: String,
    pub is_file: bool,
}

/// A log file of this writer: a regular file whose name starts with the prefix.
pub open spec fn qualifies(e: ListedEntry, prefix: Seq<char>) -> bool {
    e.is_file && prefix.is_prefix_of(e.name@)
}

/// The names of the qualifying entries, in listing order.
pub open spec fn qualifying(entries: Seq<ListedEntry>, prefix: Seq<char>) -> Seq<Seq<char>>
    decreases entries.len(),
{
    if entries.len() == 0 {
        Seq::empty()
    } else {
        let rest = qualifying(entries.drop_last(), prefix);
        if qualifies(entries.last(), prefix) {
            rest.push(entries.last().name@)
        } else {
            rest
        }
    }
}

pub open spec fn names_of(v: Seq<String>) -> Seq<Seq<char>> {
    v.map_values(|s: String| s@)
}

/// Lexicographic order on names, character by character; a name comes before
/// every longer name that it begins.
pub open spec fn lex_le(a: Seq<char>, b: Seq<char>) -> bool
    decreases a.len(),
{
    if a.len() == 0 {
        true
    } else if b.len() == 0 {
        false
    } else if a[0] != b[0] {
        (a[0] as u32) < (b[0] as u32)
    } else {
        lex_le(a.drop_first(), b.drop_first())
    }
}

pub open spec fn ascending(s: Seq<Seq<char>>) -> bool {
    forall|i: int, j: int| 0 <= i < j < s.len() ==> lex_le(#[trigger] s[i], #[trigger] s[j])
}

/// `s` holds the names of `q`, oldest (smallest) first.
pub open spec fn oldest_first_order(q: Seq<Seq<char>>, s: Seq<Seq<char>>) -> bool {
    s.to_multiset() == q.to_multiset() && ascending(s)
}

/// A requested maximum below one counts as one.
pub open spec fn max_of(max: usize) -> nat {
    if max < 1 {
        1
    } else {
        max as nat
    }
}

/// How many of `n` existing files go before one more is added under the cap `m`.
pub open spec fn prune_count(n: nat, m: nat) -> nat {
    if n >= m {
        (n - m + 1) as nat
    } else {
        0
    }
}

/// The name of a new log file: the prefix, a dot and the timestamp.
pub open spec fn file_name(prefix: Seq<char>, stamp: Seq<char>) -> Seq<char> {
    prefix + seq!['.'] + stamp
}

/// `remove` and `create` are what a writer built over this listing does: it
/// removes the oldest qualifying files, so many that with the new one at most
/// `max_of(max)` are left, and creates the file named after the timestamp.
pub open spec fn is_rotation_plan(
    entries: Seq<ListedEntry>,
    prefix: Seq<char>,
    max: usize,
    stamp: Seq<char>,
    remove: Seq<Seq<char>>,
    create: Seq<char>,
) -> bool {
    let q = qualifying(entries, prefix);
    &&& exists|s: Seq<Seq<char>>|
        oldest_first_order(q, s) && remove == s.take(prune_count(q.len(), max_of(max)) as int)
    &&& create == file_name(prefix, stamp)
}

/// Relies on `str::starts_with`: whether `p` is a prefix of `s`.
#[verifier::external_body]
fn has_prefix(s: &str, p: &str) -> (r: bool)
    ensures
        r == p@.is_prefix_of(s@),
{
    s.starts_with(p)
}

/// Relies on itertools' `Itertools::sorted`, a stable sort by `String`'s `Ord`:
/// the same names, in ascending order. `String` compares its UTF-8 bytes, which
/// orders names as their characters do.
#[verifier::external_body]
fn sort_names(names: Vec<String>) -> (r: Vec<String>)
    ensures
        oldest_first_order(names_of(names@), names_of(r@)),
{
    names.into_iter().sorted().collect()
}

/// The names of the regular files whose name starts with `prefix`, in listing
/// order.
pub fn qualifying_names(entries: &Vec<ListedEntry>, prefix: &str) -> (r: Vec<String>)
    ensures
        names_of(r@) == qualifying(entries@, prefix@),
{
    let mut r: Vec<String> = Vec::new();
    let mut i: usize = 0;
    while i < entries.len()
        invariant
            i <= entries@.len(),
            names_of(r@) == qualifying(entries@.subrange(0, i as int), prefix@),
        decreases entries@.len() - i,
    {
        let e = &entries[i];
        let ghost before = r@;
        if e.is_file && has_prefix(e.name.as_str(), prefix) {
            r.push(e.name.clone());
        }
        proof {
            let next = entries@.subrange(0, i + 1);
            assert(next.drop_last() =~= entries@.subrange(0, i as int));
            assert(next.last() == entries@[i as int]);
            assert(names_of(before.push(e.name)) =~= names_of(before).push(e.name@));
            if e.is_file && prefix@.is_prefix_of(e.name@) {
                assert(names_of(r@) =~= names_of(before).push(e.name@));
            } else {
                assert(r@ == before);
            }
        }
        i = i + 1;
    }
    proof {
        assert(entries@.subrange(0, entries@.len() as int) =~= entries@);
    }
    r
}

/// The cap on log files, a requested maximum below one counting as one.
pub fn effective_max(max: usize) -> (r: usize)
    ensures
        r as nat == max_of(max),
{
    if max < 1 {
        1
    } else {
        max
    }
}

/// The files to remove from a list sorted oldest first so that, with one file
/// more, at most `max_of(max)` remain: the first `len - max + 1` when the list
/// holds at least `max_of(max)`, none otherwise.
pub fn files_to_prune(sorted: &Vec<String>, max: usize) -> (r: Vec<String>)
    ensures
        names_of(r@) == names_of(sorted@).take(
            prune_count(sorted@.len(), max_of(max)) as int,
        ),
{
    let m = effective_max(max);
    let count: usize = if sorted.len() >= m {
        sorted.len() - m + 1
    } else {
        0
    };
    let mut r: Vec<String> = Vec::new();
    let mut i: usize = 0;
    while i < count
        invariant
            count <= sorted@.len(),
            i <= count,
            names_of(r@) == names_of(sorted@).take(i as int),
        decreases count - i,
    {
        let ghost before = r@;
        r.push(sorted[i].clone());
        proof {
            assert(names_of(r@) =~= names_of(before).push(sorted@[i as int]@));
            assert(names_of(sorted@).take(i + 1) =~= names_of(sorted@).take(i as int).push(
                sorted@[i as int]@,
            ));
        }
        i = i + 1;
    }
    r
}

/// The name of the log file for a timestamp: `{prefix}.{stamp}`.
pub fn log_file_name(prefix: &str, stamp: &str) -> (r: String)
    ensures
        r@ == file_name(prefix@, stamp@),
{
    proof {
        reveal_strlit(".");
    }
    let mut r = prefix.to_string();
    r.append(".");
    r.append(stamp);
    r
}


/// What a writer does to its directory when it starts: the files it removes,
/// oldest first, and the name of the file it creates.
pub struct RotationPlan {
    pub remove: Vec<String>,
    pub create: String,
}

/// The plan for a listing of the directory and a timestamp.
pub fn plan_rotation_at(max: usize, entries: &Vec<ListedEntry>, prefix: &str, stamp: &str) -> (r:
    RotationPlan)
    ensures
        is_rotation_plan(entries@, prefix@, max, stamp@, names_of(r.remove@), r.create@),
{
    let found = qualifying_names(entries, prefix);
    let ghost q = names_of(found@);
    let sorted = sort_names(found);
    let remove = files_to_prune(&sorted, max);
    let create = log_file_name(prefix, stamp);
    proof {
        assert(oldest_first_order(q, names_of(sorted@)));
        assert(names_of(sorted@).len() == sorted@.len());
        assert(q.len() == names_of(sorted@).len()) by {
            names_of(sorted@).to_multiset_ensures();
            q.to_multiset_ensures();
        }
    }
    RotationPlan { remove, create }
}

/// The pattern of a file's timestamp: local time to the second.
pub open spec fn stamp_pattern() -> Seq<char> {
    seq!['%', 'Y', '-', '%', 'm', '-', '%', 'd', 'T', '%', 'H', ':', '%', 'M', ':', '%', 'S']
}

/// Relies on chrono's `Local::now` and `DateTime::format` with a pattern
/// whose every specifier is valid: the current local time in that pattern;
/// nothing is known of its value.
#[verifier::external_body]
fn local_time_text(pattern: &str) -> (r: String)
    requires
        pattern@ == stamp_pattern(),
{
    chrono::Local::now().format(pattern).to_string()
}

/// The plan for a listing of the directory, stamped with the current local time.
pub fn plan_rotation(max: usize, entries: &Vec<ListedEntry>, prefix: &str) -> (r: RotationPlan)
    ensures
        exists|stamp: Seq<char>|
            is_rotation_plan(entries@, prefix@, max, stamp, names_of(r.remove@), r.create@),
{
    let pattern = "%Y-%m-%dT%H:%M:%S";
    proof {
        reveal_strlit("%Y-%m-%dT%H:%M:%S");
        assert(pattern@ =~= stamp_pattern());
    }
    let stamp = local_time_text(pattern);
    plan_rotation_at(max, entries, prefix, stamp.as_str())
}


/// No two entries of the listing share a name, as in any one directory.
pub open spec fn distinct_names(entries: Seq<ListedEntry>) -> bool {
    forall|i: int, j: int|
        0 <= i < entries.len() && 0 <= j < entries.len() && i != j ==> entries[i].name@
            != entries[j].name@
}

/// The qualifying files in the directory once a plan has been carried out.
pub open spec fn retained(q: Seq<Seq<char>>, remove: Seq<Seq<char>>, create: Seq<char>) -> Set<
    Seq<char>,
> {
    q.to_set().difference(remove.to_set()).insert(create)
}

/// `x` is the name of a qualifying entry of the listing.
pub open spec fn names_qualifying_entry(entries: Seq<ListedEntry>, prefix: Seq<char>, x: Seq<char>) -> bool {
    exists|i: int| 0 <= i < entries.len() && entries[i].name@ == x && qualifies(entries[i], prefix)
}

/// Each name that the filter keeps is the name of a qualifying entry.
pub proof fn lemma_qualifying_from_entries(entries: Seq<ListedEntry>, prefix: Seq<char>)
    ensures
        forall|k: int|
            0 <= k < qualifying(entries, prefix).len() ==> names_qualifying_entry(
                entries,
                prefix,
                #[trigger] qualifying(entries, prefix)[k],
            ),
    decreases entries.len(),
{
    if entries.len() > 0 {
        let rest = entries.drop_last();
        lemma_qualifying_from_entries(rest, prefix);
        let q = qualifying(entries, prefix);
        let qr = qualifying(rest, prefix);
        assert forall|k: int| 0 <= k < q.len() implies names_qualifying_entry(
            entries,
            prefix,
            #[trigger] q[k],
        ) by {
            if k < qr.len() {
                assert(q[k] == qr[k]);
                assert(names_qualifying_entry(rest, prefix, qr[k]));
                let i = choose|i: int|
                    0 <= i < rest.len() && rest[i].name@ == qr[k] && qualifies(rest[i], prefix);
                assert(entries[i] == rest[i]);
            } else {
                let i = entries.len() - 1;
                assert(entries[i] == entries.last());
                assert(qualifies(entries.last(), prefix));
                assert(q[k] == entries.last().name@);
            }
        }
    }
}

/// Two sequences with the same multiset hold the same elements.
proof fn lemma_same_members(q: Seq<Seq<char>>, s: Seq<Seq<char>>)
    requires
        s.to_multiset() == q.to_multiset(),
    ensures
        forall|x: Seq<char>| #[trigger] s.contains(x) <==> q.contains(x),
        s.len() == q.len(),
{
    s.to_multiset_ensures();
    q.to_multiset_ensures();
    assert forall|x: Seq<char>| #[trigger] s.contains(x) <==> q.contains(x) by {
        assert(s.contains(x) <==> s.to_multiset().count(x) > 0);
        assert(q.contains(x) <==> q.to_multiset().count(x) > 0);
    }
}

/// Names that are distinct in the listing stay distinct after the filter.
pub proof fn lemma_qualifying_no_duplicates(entries: Seq<ListedEntry>, prefix: Seq<char>)
    requires
        distinct_names(entries),
    ensures
        qualifying(entries, prefix).no_duplicates(),
    decreases entries.len(),
{
    if entries.len() > 0 {
        let rest = entries.drop_last();
        assert(distinct_names(rest)) by {
            assert forall|i: int, j: int|
                0 <= i < rest.len() && 0 <= j < rest.len() && i != j implies rest[i].name@
                != rest[j].name@ by {
                assert(rest[i] == entries[i] && rest[j] == entries[j]);
            }
        }
        lemma_qualifying_no_duplicates(rest, prefix);
        lemma_qualifying_from_entries(rest, prefix);
        let qr = qualifying(rest, prefix);
        if qualifies(entries.last(), prefix) {
            let last = entries.last().name@;
            assert forall|k: int| 0 <= k < qr.len() implies #[trigger] qr[k] != last by {
                assert(names_qualifying_entry(rest, prefix, qr[k]));
                let i = choose|i: int|
                    0 <= i < rest.len() && rest[i].name@ == qr[k] && qualifies(rest[i], prefix);
                assert(rest[i] == entries[i]);
                assert(entries[entries.len() - 1] == entries.last());
            }
            let q = qr.push(last);
            assert forall|a: int, b: int|
                0 <= a < q.len() && 0 <= b < q.len() && a != b implies q[a] != q[b] by {
                if a < qr.len() && b < qr.len() {
                    assert(q[a] == qr[a] && q[b] == qr[b]);
                } else if a < qr.len() {
                    assert(q[a] == qr[a]);
                } else if b < qr.len() {
                    assert(q[b] == qr[b]);
                }
            }
        }
    }
}

/// A requested maximum of zero plans exactly as a maximum of one.
pub proof fn lemma_zero_max_is_one(
    entries: Seq<ListedEntry>,
    prefix: Seq<char>,
    stamp: Seq<char>,
    remove: Seq<Seq<char>>,
    create: Seq<char>,
)
    ensures
        is_rotation_plan(entries, prefix, 0, stamp, remove, create) == is_rotation_plan(
            entries,
            prefix,
            1,
            stamp,
            remove,
            create,
        ),
{
    assert(max_of(0) == max_of(1));
}

/// Pruning removes only regular files directly in the directory whose name
/// starts with the prefix; with distinct names, no other entry is removed.
pub proof fn lemma_prune_only_qualifying(
    entries: Seq<ListedEntry>,
    prefix: Seq<char>,
    max: usize,
    stamp: Seq<char>,
    remove: Seq<Seq<char>>,
    create: Seq<char>,
)
    requires
        is_rotation_plan(entries, prefix, max, stamp, remove, create),
    ensures
        forall|x: Seq<char>|
            #[trigger] remove.contains(x) ==> names_qualifying_entry(entries, prefix, x),
        distinct_names(entries) ==> forall|i: int|
            0 <= i < entries.len() && !qualifies(entries[i], prefix) ==> !remove.contains(
                #[trigger] entries[i].name@,
            ),
{
    let q = qualifying(entries, prefix);
    let s = choose|s: Seq<Seq<char>>|
        oldest_first_order(q, s) && remove == s.take(
            prune_count(q.len(), max_of(max)) as int,
        );
    lemma_qualifying_from_entries(entries, prefix);
    lemma_same_members(q, s);
    assert(prune_count(q.len(), max_of(max)) <= s.len());
    assert forall|x: Seq<char>| #[trigger] remove.contains(x) implies names_qualifying_entry(
        entries,
        prefix,
        x,
    ) by {
        let a = choose|a: int| 0 <= a < remove.len() && remove[a] == x;
        assert(s[a] == x);
        assert(s.contains(x));
        assert(q.contains(x));
        let k = choose|k: int| 0 <= k < q.len() && q[k] == x;
        assert(names_qualifying_entry(entries, prefix, q[k]));
    }
    if distinct_names(entries) {
        assert forall|i: int|
            0 <= i < entries.len() && !qualifies(entries[i], prefix) implies !remove.contains(
            #[trigger] entries[i].name@,
        ) by {
            if remove.contains(entries[i].name@) {
                assert(names_qualifying_entry(entries, prefix, entries[i].name@));
                let j = choose|j: int|
                    0 <= j < entries.len() && entries[j].name@ == entries[i].name@ && qualifies(
                        entries[j],
                        prefix,
                    );
                assert(i != j);
            }
        }
    }
}

/// Pruning takes the oldest files first: every removed name sorts at or before
/// every qualifying name that stays.
pub proof fn lemma_prune_oldest_first(
    entries: Seq<ListedEntry>,
    prefix: Seq<char>,
    max: usize,
    stamp: Seq<char>,
    remove: Seq<Seq<char>>,
    create: Seq<char>,
)
    requires
        is_rotation_plan(entries, prefix, max, stamp, remove, create),
    ensures
        forall|d: Seq<char>, t: Seq<char>|
            #[trigger] remove.contains(d) && #[trigger] qualifying(entries, prefix).contains(t)
                && !remove.contains(t) ==> lex_le(d, t),
{
    let q = qualifying(entries, prefix);
    let k = prune_count(q.len(), max_of(max)) as int;
    let s = choose|s: Seq<Seq<char>>| oldest_first_order(q, s) && remove == s.take(k);
    lemma_same_members(q, s);
    assert(prune_count(q.len(), max_of(max)) <= s.len());
    assert forall|d: Seq<char>, t: Seq<char>|
        #[trigger] remove.contains(d) && #[trigger] q.contains(t) && !remove.contains(
            t,
        ) implies lex_le(d, t) by {
        let a = choose|a: int| 0 <= a < remove.len() && remove[a] == d;
        assert(s.contains(t));
        let b = choose|b: int| 0 <= b < s.len() && s[b] == t;
        if b < remove.len() {
            assert(remove[b] == t);
        }
        assert(s[a] == d);
    }
}

/// With distinct names in the directory and a new name that is not among the
/// files kept, a writer leaves exactly `min(n, max - 1) + 1` qualifying files,
/// the new one among them, where `n` qualifying files were there before.
pub proof fn lemma_retained_count(
    entries: Seq<ListedEntry>,
    prefix: Seq<char>,
    max: usize,
    stamp: Seq<char>,
    remove: Seq<Seq<char>>,
    create: Seq<char>,
)
    requires
        is_rotation_plan(entries, prefix, max, stamp, remove, create),
        distinct_names(entries),
        !qualifying(entries, prefix).to_set().difference(remove.to_set()).contains(create),
    ensures
        ({
            let n = qualifying(entries, prefix).len();
            let m = max_of(max);
            retained(qualifying(entries, prefix), remove, create).len() == if n < m {
                n + 1
            } else {
                m
            }
        }),
        retained(qualifying(entries, prefix), remove, create).contains(create),
{
    let q = qualifying(entries, prefix);
    let k = prune_count(q.len(), max_of(max)) as int;
    let s = choose|s: Seq<Seq<char>>| oldest_first_order(q, s) && remove == s.take(k);
    lemma_qualifying_no_duplicates(entries, prefix);
    s.to_multiset_ensures();
    q.to_multiset_ensures();
    q.lemma_multiset_has_no_duplicates();
    s.lemma_multiset_has_no_duplicates_conv();
    lemma_same_members(q, s);
    assert(prune_count(q.len(), max_of(max)) <= s.len());
    let kept = s.skip(k);
    assert(kept.no_duplicates());
    kept.unique_seq_to_set();
    let survivors = q.to_set().difference(remove.to_set());
    assert(survivors =~= kept.to_set()) by {
        assert forall|x: Seq<char>| survivors.contains(x) implies kept.to_set().contains(x) by {
            assert(s.contains(x));
            let b = choose|b: int| 0 <= b < s.len() && s[b] == x;
            if b < k {
                assert(remove[b] == x);
            }
            assert(kept[b - k] == x);
        }
        assert forall|x: Seq<char>| kept.to_set().contains(x) implies survivors.contains(x) by {
            let b = choose|b: int| 0 <= b < kept.len() && kept[b] == x;
            assert(s[b + k] == x);
            assert(s.contains(x));
            assert(q.contains(x));
            if remove.contains(x) {
                let a = choose|a: int| 0 <= a < remove.len() && remove[a] == x;
                assert(s[a] == x);
            }
        }
    }
    assert(retained(q, remove, create) == survivors.insert(create));
}

} // verus!

//! GitHub-style heading slugs: a stable anchor name per heading, with numeric
//! suffixes that keep every anchor of a document distinct.

use vstd::prelude::*;
use crate::text::{
    ascii_char_tables_agree, ascii_lower_char, ascii_lowercase, char_is_alphanumeric,
    char_is_whitespace, char_to_lowercase, is_alphanumeric_char, is_ascii_alnum, is_ascii_text,
    is_ascii_upper, is_white_space, lowercase_of, string_push,
};

verus! {

/// The decimal digit for `d < 10`.
pub open spec fn decimal_digit(d: nat) -> char {
    if d == 0 { '0' }
    else if d == 1 { '1' }
    else if d == 2 { '2' }
    else if d == 3 { '3' }
    else if d == 4 { '4' }
    else if d == 5 { '5' }
    else if d == 6 { '6' }
    else if d == 7 { '7' }
    else if d == 8 { '8' }
    else { '9' }
}

/// The decimal representation of `n`, without leading zeros.
pub open spec fn decimal(n: nat) -> Seq<char>
    decreases n,
{
    if n < 10 {
        seq![decimal_digit(n)]
    } else {
        decimal(n / 10).push(decimal_digit(n % 10))
    }
}

/// The `k`-th candidate anchor for a heading whose slug is `base`: the slug
/// itself, then `base-1`, `base-2`, ...
pub open spec fn slug_candidate(base: Seq<char>, k: nat) -> Seq<char> {
    if k == 0 {
        base
    } else {
        base + seq!['-'] + decimal(k)
    }
}

proof fn lemma_decimal_len(n: nat)
    ensures
        decimal(n).len() >= 1,
        n >= 10 ==> decimal(n).len() >= 2,
    decreases n,
{
    if n >= 10 {
        lemma_decimal_len(n / 10);
    }
}

proof fn lemma_decimal_injective(a: nat, b: nat)
    requires
        decimal(a) == decimal(b),
    ensures
        a == b,
    decreases a,
{
    lemma_decimal_len(a);
    lemma_decimal_len(b);
    if a >= 10 && b >= 10 {
        let da = decimal(a);
        let db = decimal(b);
        assert(da.last() == decimal_digit(a % 10));
        assert(db.last() == decimal_digit(b % 10));
        assert(a % 10 == b % 10);
        assert(da.drop_last() =~= decimal(a / 10));
        assert(db.drop_last() =~= decimal(b / 10));
        lemma_decimal_injective(a / 10, b / 10);
        assert(a == 10 * (a / 10) + a % 10);
        assert(b == 10 * (b / 10) + b % 10);
    } else if a >= 10 {
        assert(decimal(b).len() == 1);
    } else if b >= 10 {
        assert(decimal(a).len() == 1);
    } else {
        assert(decimal(a)[0] == decimal_digit(a));
        assert(decimal(b)[0] == decimal_digit(b));
    }
}

/// Different suffixes give different candidates.
pub proof fn lemma_candidate_injective(base: Seq<char>, j: nat, k: nat)
    requires
        j != k,
    ensures
        slug_candidate(base, j) != slug_candidate(base, k),
{
    lemma_decimal_len(j);
    lemma_decimal_len(k);
    if j != 0 && k != 0 {
        if slug_candidate(base, j) == slug_candidate(base, k) {
            let cj = slug_candidate(base, j);
            let ck = slug_candidate(base, k);
            assert(cj.skip(base.len() + 1int) =~= decimal(j));
            assert(ck.skip(base.len() + 1int) =~= decimal(k));
            lemma_decimal_injective(j, k);
        }
    } else if j == 0 {
        assert(slug_candidate(base, k).len() > base.len());
    } else {
        assert(slug_candidate(base, j).len() > base.len());
    }
}

/// Whether `c` is kept in a slug: alphanumerics, `_` and `-`.
pub open spec fn slug_keeps(c: char) -> bool {
    is_alphanumeric_char(c) || c == '_' || c == '-'
}

/// The chars of `text`, each replaced by its lowercase mapping.
pub open spec fn lowered(text: Seq<char>) -> Seq<char>
    decreases text.len(),
{
    if text.len() == 0 {
        Seq::empty()
    } else {
        lowered(text.drop_last()) + lowercase_of(text.last())
    }
}

/// The slug made of `chars` so far, and whether whitespace was seen since
/// the last kept char. Kept chars are copied; a run of whitespace between
/// kept chars becomes one dash, unless the slug is still empty or already
/// ends with a dash; every other char is dropped.
pub open spec fn slug_scan(chars: Seq<char>) -> (Seq<char>, bool)
    decreases chars.len(),
{
    if chars.len() == 0 {
        (Seq::empty(), false)
    } else {
        let prev = slug_scan(chars.drop_last());
        let c = chars.last();
        if slug_keeps(c) {
            let joined = if prev.1 && prev.0.len() > 0 && prev.0.last() != '-' {
                prev.0.push('-')
            } else {
                prev.0
            };
            (joined.push(c), false)
        } else if is_white_space(c) {
            (prev.0, true)
        } else {
            prev
        }
    }
}

/// The slug of a heading's text, before any suffix.
pub open spec fn slug_base(text: Seq<char>) -> Seq<char> {
    slug_scan(lowered(text)).0
}

/// `k` is the first suffix from `k0` on whose candidate is not yet emitted.
pub open spec fn is_free_suffix(base: Seq<char>, k0: nat, k: nat, emitted: Set<Seq<char>>) -> bool {
    &&& k0 <= k
    &&& !emitted.contains(slug_candidate(base, k))
    &&& forall|j: nat| k0 <= j < k ==> emitted.contains(#[trigger] slug_candidate(base, j))
}

/// The first suffix from `k0` on whose candidate is not yet emitted.
pub open spec fn free_suffix(base: Seq<char>, k0: nat, emitted: Set<Seq<char>>) -> nat {
    choose|k: nat| is_free_suffix(base, k0, k, emitted)
}

/// The suffix to start from for `base`: its counter, or 0 for a new slug.
pub open spec fn start_suffix(base: Seq<char>, counters: Map<Seq<char>, usize>) -> nat {
    if counters.contains_key(base) {
        counters[base] as nat
    } else {
        0
    }
}

/// The suffix that the next heading with slug `base` gets.
pub open spec fn assigned_suffix(base: Seq<char>, counters: Map<Seq<char>, usize>, emitted: Set<Seq<char>>) -> nat {
    free_suffix(base, start_suffix(base, counters), emitted)
}

/// The candidates with suffixes in `[k0, k)`.
pub open spec fn candidates_between(base: Seq<char>, k0: nat, k: nat) -> Set<Seq<char>>
    decreases k,
{
    if k <= k0 {
        Set::empty()
    } else {
        candidates_between(base, k0, (k - 1) as nat).insert(slug_candidate(base, (k - 1) as nat))
    }
}

proof fn lemma_candidates_between(base: Seq<char>, k0: nat, k: nat)
    requires
        k0 <= k,
    ensures
        candidates_between(base, k0, k).finite(),
        candidates_between(base, k0, k).len() == k - k0,
        forall|s: Seq<char>| #[trigger] candidates_between(base, k0, k).contains(s)
            ==> exists|j: nat| k0 <= j < k && s == slug_candidate(base, j),
    decreases k,
{
    if k > k0 {
        let km = (k - 1) as nat;
        lemma_candidates_between(base, k0, km);
        if candidates_between(base, k0, km).contains(slug_candidate(base, km)) {
            let j = choose|j: nat| k0 <= j < km && slug_candidate(base, km) == slug_candidate(base, j);
            lemma_candidate_injective(base, j, km);
        }
    }
}

/// Emitted candidates with consecutive suffixes are no more than the emitted set.
proof fn lemma_emitted_run_bounded(base: Seq<char>, k0: nat, k: nat, emitted: Set<Seq<char>>)
    requires
        emitted.finite(),
        k0 <= k,
        forall|j: nat| k0 <= j < k ==> emitted.contains(#[trigger] slug_candidate(base, j)),
    ensures
        k - k0 <= emitted.len(),
{
    lemma_candidates_between(base, k0, k);
    assert(candidates_between(base, k0, k).subset_of(emitted));
    vstd::set_lib::lemma_len_subset(candidates_between(base, k0, k), emitted);
}

proof fn lemma_free_suffix_from(base: Seq<char>, k0: nat, k: nat, emitted: Set<Seq<char>>)
    requires
        emitted.finite(),
        k0 <= k,
        forall|j: nat| k0 <= j < k ==> emitted.contains(#[trigger] slug_candidate(base, j)),
    ensures
        is_free_suffix(base, k0, free_suffix(base, k0, emitted), emitted),
        free_suffix(base, k0, emitted) <= k0 + emitted.len(),
    decreases emitted.len() + k0 - k,
{
    lemma_emitted_run_bounded(base, k0, k, emitted);
    if emitted.contains(slug_candidate(base, k)) {
        lemma_emitted_run_bounded(base, k0, k + 1, emitted);
        lemma_free_suffix_from(base, k0, k + 1, emitted);
    } else {
        assert(is_free_suffix(base, k0, k, emitted));
        lemma_free_suffix_unique(base, k0, k, free_suffix(base, k0, emitted), emitted);
    }
}

proof fn lemma_free_suffix_unique(base: Seq<char>, k0: nat, k1: nat, k2: nat, emitted: Set<Seq<char>>)
    requires
        is_free_suffix(base, k0, k1, emitted),
        is_free_suffix(base, k0, k2, emitted),
    ensures
        k1 == k2,
{
    if k1 < k2 {
        assert(emitted.contains(slug_candidate(base, k1)));
    } else if k2 < k1 {
        assert(emitted.contains(slug_candidate(base, k2)));
    }
}

/// Over a finite set of emitted anchors there is always a first free suffix,
/// at most the number of emitted anchors past the start.
pub proof fn lemma_free_suffix_exists(base: Seq<char>, k0: nat, emitted: Set<Seq<char>>)
    requires
        emitted.finite(),
    ensures
        is_free_suffix(base, k0, free_suffix(base, k0, emitted), emitted),
        free_suffix(base, k0, emitted) <= k0 + emitted.len(),
{
    lemma_free_suffix_from(base, k0, k0, emitted);
}

proof fn lemma_decimal_digits(n: nat)
    ensures
        forall|i: int| 0 <= i < decimal(n).len() ==> '0' <= #[trigger] decimal(n)[i] && decimal(n)[i] <= '9',
    decreases n,
{
    if n >= 10 {
        lemma_decimal_digits(n / 10);
        assert forall|i: int| 0 <= i < decimal(n).len() implies '0' <= #[trigger] decimal(n)[i] && decimal(n)[i] <= '9' by {
            if i < decimal(n / 10).len() {
                assert(decimal(n)[i] == decimal(n / 10)[i]);
            }
        }
    }
}

fn decimal_char(d: u64) -> (c: char)
    requires
        d < 10,
    ensures
        c == decimal_digit(d as nat),
{
    match d {
        0 => '0',
        1 => '1',
        2 => '2',
        3 => '3',
        4 => '4',
        5 => '5',
        6 => '6',
        7 => '7',
        8 => '8',
        _ => '9',
    }
}

/// Appends the decimal representation of `n`.
pub(crate) fn push_decimal(s: &mut String, n: u64)
    ensures
        final(s)@ == old(s)@ + decimal(n as nat),
    decreases n,
{
    if n >= 10 {
        push_decimal(s, n / 10);
    }
    string_push(s, decimal_char(n % 10));
    proof {
        if n >= 10 {
            assert(decimal(n as nat) == decimal((n / 10) as nat).push(decimal_digit((n % 10) as nat)));
        }
    }
    assert(final(s)@ =~= old(s)@ + decimal(n as nat));
}

/// The set of anchors already handed out in one document.
pub struct EmittedSlugs {
    items: Vec<String>,
}

impl EmittedSlugs {
    closed spec fn items_view(&self) -> Seq<Seq<char>> {
        self.items@.map_values(|s: String| s@)
    }

    #[verifier::type_invariant]
    closed spec fn wf(&self) -> bool {
        self.items_view().no_duplicates()
    }

    /// The anchors handed out so far.
    pub closed spec fn slugs(&self) -> Set<Seq<char>> {
        self.items_view().to_set()
    }

    /// The set of anchors handed out is finite.
    pub proof fn lemma_finite(&self)
        ensures
            self.slugs().finite(),
    {
        vstd::seq_lib::seq_to_set_is_finite(self.items_view());
    }

    proof fn lemma_len(&self)
        requires
            self.wf(),
        ensures
            self.slugs().finite(),
            self.slugs().len() == self.items@.len(),
    {
        self.lemma_finite();
        self.items_view().unique_seq_to_set();
    }

    pub fn new() -> (r: Self)
        ensures
            r.slugs() == Set::<Seq<char>>::empty(),
    {
        let r = EmittedSlugs { items: Vec::new() };
        assert(r.items_view() =~= Seq::<Seq<char>>::empty());
        r
    }

    /// Number of anchors handed out.
    pub fn len(&self) -> (n: usize)
        ensures
            n == self.slugs().len(),
    {
        proof {
            use_type_invariant(self);
            self.lemma_len();
        }
        self.items.len()
    }

    pub fn contains(&self, s: &String) -> (r: bool)
        ensures
            r == self.slugs().contains(s@),
    {
        let mut i: usize = 0;
        while i < self.items.len()
            invariant
                i <= self.items@.len(),
                forall|j: int| 0 <= j < i ==> self.items_view()[j] != s@,
            decreases self.items@.len() - i,
        {
            if self.items[i] == *s {
                assert(self.items_view()[i as int] == s@);
                return true;
            }
            i = i + 1;
        }
        assert(!self.items_view().contains(s@));
        false
    }

    /// Adds `s`; true where it was not there before.
    pub fn insert(&mut self, s: String) -> (r: bool)
        ensures
            r == !old(self).slugs().contains(s@),
            final(self).slugs() == old(self).slugs().insert(s@),
    {
        if self.contains(&s) {
            assert(self.slugs().insert(s@) =~= self.slugs());
            return false;
        }
        let ghost old_view = self.items_view();
        proof {
            use_type_invariant(&*self);
            assert(!old_view.contains(s@));
        }
        let mut items: Vec<String> = Vec::new();
        std::mem::swap(&mut items, &mut self.items);
        items.push(s);
        assert(items@.map_values(|s: String| s@) =~= old_view.push(s@));
        self.items = items;
        assert(self.items_view() =~= old_view.push(s@));
        assert(self.slugs() =~= old_view.to_set().insert(s@)) by {
            old_view.lemma_push_to_set_commute(s@);
        }
        true
    }
}

/// For each base slug, the next suffix to try.
pub struct SlugCounters {
    entries: Vec<(String, usize)>,
}

/// The map that a list of `(key, counter)` entries stands for.
pub open spec fn entries_map(es: Seq<(String, usize)>) -> Map<Seq<char>, usize>
    decreases es.len(),
{
    if es.len() == 0 {
        Map::empty()
    } else {
        entries_map(es.drop_last()).insert(es.last().0@, es.last().1)
    }
}

/// The keys of a list of entries.
pub open spec fn entry_keys(es: Seq<(String, usize)>) -> Seq<Seq<char>> {
    es.map_values(|e: (String, usize)| e.0@)
}

proof fn lemma_entries_lookup(es: Seq<(String, usize)>, i: int)
    requires
        entry_keys(es).no_duplicates(),
        0 <= i < es.len(),
    ensures
        entries_map(es).contains_key(es[i].0@),
        entries_map(es)[es[i].0@] == es[i].1,
    decreases es.len(),
{
    if i < es.len() - 1 {
        let rest = es.drop_last();
        assert(entry_keys(rest) =~= entry_keys(es).drop_last());
        assert(entry_keys(es)[i] == es[i].0@);
        assert(entry_keys(es)[es.len() - 1] == es.last().0@);
        lemma_entries_lookup(rest, i);
    }
}

proof fn lemma_entries_absent(es: Seq<(String, usize)>, k: Seq<char>)
    requires
        forall|i: int| 0 <= i < es.len() ==> es[i].0@ != k,
    ensures
        !entries_map(es).contains_key(k),
    decreases es.len(),
{
    if es.len() > 0 {
        lemma_entries_absent(es.drop_last(), k);
    }
}

proof fn lemma_entries_update(es: Seq<(String, usize)>, i: int, e: (String, usize))
    requires
        0 <= i < es.len(),
        e.0@ == es[i].0@,
        entry_keys(es).no_duplicates(),
    ensures
        entries_map(es.update(i, e)) == entries_map(es).insert(e.0@, e.1),
    decreases es.len(),
{
    let es2 = es.update(i, e);
    if i == es.len() - 1 {
        assert(es2.drop_last() =~= es.drop_last());
        assert(entries_map(es2) =~= entries_map(es).insert(e.0@, e.1));
    } else {
        let rest = es.drop_last();
        assert(es2.drop_last() =~= rest.update(i, e));
        assert(entry_keys(rest) =~= entry_keys(es).drop_last());
        lemma_entries_update(rest, i, e);
        assert(entry_keys(es)[i] == es[i].0@);
        assert(entry_keys(es)[es.len() - 1] == es.last().0@);
        assert(es2.last() == es.last());
        assert(entries_map(es2) =~= entries_map(es).insert(e.0@, e.1));
    }
}

impl SlugCounters {
    #[verifier::type_invariant]
    closed spec fn wf(&self) -> bool {
        entry_keys(self.entries@).no_duplicates()
    }

    /// The counter of each base slug seen so far.
    pub closed spec fn counters(&self) -> Map<Seq<char>, usize> {
        entries_map(self.entries@)
    }

    pub fn new() -> (r: Self)
        ensures
            r.counters() == Map::<Seq<char>, usize>::empty(),
    {
        let r = SlugCounters { entries: Vec::new() };
        assert(entry_keys(r.entries@) =~= Seq::<Seq<char>>::empty());
        r
    }

    /// Position of the entry for `k`, if any.
    fn position(&self, k: &String) -> (r: Option<usize>)
        ensures
            match r {
                Some(i) => i < self.entries@.len() && self.entries@[i as int].0@ == k@,
                None => forall|j: int| 0 <= j < self.entries@.len() ==> self.entries@[j].0@ != k@,
            },
    {
        let mut i: usize = 0;
        while i < self.entries.len()
            invariant
                i <= self.entries@.len(),
                forall|j: int| 0 <= j < i ==> self.entries@[j].0@ != k@,
            decreases self.entries@.len() - i,
        {
            if self.entries[i].0 == *k {
                return Some(i);
            }
            i = i + 1;
        }
        None
    }

    /// The counter of `k`.
    pub fn get(&self, k: &String) -> (r: Option<usize>)
        ensures
            r == if self.counters().contains_key(k@) {
                Some(self.counters()[k@])
            } else {
                None::<usize>
            },
    {
        proof {
            use_type_invariant(self);
        }
        match self.position(k) {
            Some(i) => {
                proof {
                    lemma_entries_lookup(self.entries@, i as int);
                }
                Some(self.entries[i].1)
            },
            None => {
                proof {
                    lemma_entries_absent(self.entries@, k@);
                }
                None
            },
        }
    }

    /// Sets the counter of `k` to `v`.
    pub fn set(&mut self, k: String, v: usize)
        ensures
            final(self).counters() == old(self).counters().insert(k@, v),
    {
        proof {
            use_type_invariant(&*self);
        }
        match self.position(&k) {
            Some(i) => {
                let ghost es = self.entries@;
                proof {
                    lemma_entries_update(es, i as int, (k, v));
                    assert(entry_keys(es.update(i as int, (k, v))) =~= entry_keys(es));
                }
                let mut entries: Vec<(String, usize)> = Vec::new();
                std::mem::swap(&mut entries, &mut self.entries);
                entries.set(i, (k, v));
                self.entries = entries;
            },
            None => {
                let ghost es = self.entries@;
                proof {
                    assert(!entry_keys(es).contains(k@));
                    assert(entry_keys(es.push((k, v))) =~= entry_keys(es).push(k@));
                    assert(es.push((k, v)).drop_last() =~= es);
                }
                let mut entries: Vec<(String, usize)> = Vec::new();
                std::mem::swap(&mut entries, &mut self.entries);
                entries.push((k, v));
                self.entries = entries;
            },
        }
    }
}

proof fn lemma_lowered_step(text: Seq<char>, i: int)
    requires
        0 <= i < text.len(),
    ensures
        lowered(text.take(i + 1)) == lowered(text.take(i)) + lowercase_of(text[i]),
{
    assert(text.take(i + 1).drop_last() =~= text.take(i));
}

/// The anchor of a heading with text `text`, suffixed so that it differs from
/// every anchor already emitted in the document; records it as emitted and
/// advances the counter of its base slug past it.
pub fn heading_slug(text: &str, prior: &mut SlugCounters, emitted: &mut EmittedSlugs) -> (r: String)
    requires
        old(emitted).slugs().len() < usize::MAX,
        forall|s: Seq<char>| #[trigger] old(prior).counters().contains_key(s)
            ==> old(prior).counters()[s] + old(emitted).slugs().len() < usize::MAX,
    ensures
        r@ == slug_candidate(
            slug_base(text@),
            assigned_suffix(slug_base(text@), old(prior).counters(), old(emitted).slugs()),
        ),
        is_free_suffix(
            slug_base(text@),
            start_suffix(slug_base(text@), old(prior).counters()),
            assigned_suffix(slug_base(text@), old(prior).counters(), old(emitted).slugs()),
            old(emitted).slugs(),
        ),
        !old(emitted).slugs().contains(r@),
        forall|q: int| 0 <= q < r@.len() ==> !is_white_space(#[trigger] r@[q]),
        final(emitted).slugs() == old(emitted).slugs().insert(r@),
        final(prior).counters() == old(prior).counters().insert(
            slug_base(text@),
            (assigned_suffix(slug_base(text@), old(prior).counters(), old(emitted).slugs()) + 1) as usize,
        ),
{
    broadcast use vstd::string::group_string_axioms;

    let mut slug = String::new();
    let mut pending_dash = false;
    let mut slug_empty = true;
    let mut ends_with_dash = false;
    let ghost mut seen: Seq<char> = Seq::empty();
    assert(text@.take(0) =~= Seq::<char>::empty());
    for c in it: text.chars()
        invariant
            it.seq() == text@,
            seen == lowered(text@.take(it.index())),
            slug_scan(seen) == (slug@, pending_dash),
            slug_empty == (slug@.len() == 0),
            ends_with_dash == (slug@.len() > 0 && slug@.last() == '-'),
            forall|q: int| 0 <= q < slug@.len() ==> !is_white_space(#[trigger] slug@[q]),
    {
        let lower = char_to_lowercase(c);
        let mut j: usize = 0;
        while j < lower.len()
            invariant
                j <= lower@.len(),
                slug_scan(seen + lower@.take(j as int)) == (slug@, pending_dash),
                slug_empty == (slug@.len() == 0),
                ends_with_dash == (slug@.len() > 0 && slug@.last() == '-'),
                forall|q: int| 0 <= q < slug@.len() ==> !is_white_space(#[trigger] slug@[q]),
            decreases lower@.len() - j,
        {
            let ch = lower[j];
            let ghost before = seen + lower@.take(j as int);
            assert((before.push(ch)).drop_last() =~= before);
            assert(seen + lower@.take(j + 1) =~= before.push(ch));
            if char_is_alphanumeric(ch) || ch == '_' || ch == '-' {
                if pending_dash && !slug_empty && !ends_with_dash {
                    string_push(&mut slug, '-');
                }
                pending_dash = false;
                string_push(&mut slug, ch);
                slug_empty = false;
                ends_with_dash = ch == '-';
            } else if char_is_whitespace(ch) {
                pending_dash = true;
            }
            j = j + 1;
        }
        proof {
            assert(lower@.take(lower@.len() as int) =~= lower@);
            lemma_lowered_step(text@, it.index());
            seen = seen + lower@;
        }
    }
    assert(text@.take(text@.len() as int) =~= text@);
    let ghost base = slug@;
    assert(base == slug_base(text@));

    let ghost counters = prior.counters();
    let ghost used = emitted.slugs();
    proof {
        emitted.lemma_finite();
    }
    let k0: usize = match prior.get(&slug) {
        Some(k) => k,
        None => 0,
    };
    assert(k0 == start_suffix(base, counters));
    let mut k: usize = k0;
    loop
        invariant
            k0 <= k,
            k0 + used.len() < usize::MAX,
            slug@ == base,
            forall|q: int| 0 <= q < base.len() ==> !is_white_space(#[trigger] base[q]),
            emitted.slugs() == used,
            prior.counters() == counters,
            used.finite(),
            forall|j: nat| k0 <= j < k ==> used.contains(#[trigger] slug_candidate(base, j)),
            base == slug_base(text@),
            counters == old(prior).counters(),
            used == old(emitted).slugs(),
            k0 == start_suffix(base, counters),
        decreases used.len() + k0 - k,
    {
        proof {
            lemma_emitted_run_bounded(base, k0 as nat, k as nat, used);
        }
        let mut candidate = slug.clone();
        if k != 0 {
            string_push(&mut candidate, '-');
            push_decimal(&mut candidate, k as u64);
        }
        assert(candidate@ =~= slug_candidate(base, k as nat));
        proof {
            lemma_decimal_digits(k as nat);
            assert forall|q: int| 0 <= q < candidate@.len() implies !is_white_space(#[trigger] candidate@[q]) by {
                if q < base.len() {
                    assert(candidate@[q] == base[q]);
                } else if k != 0 {
                    if q > base.len() {
                        assert(candidate@[q] == decimal(k as nat)[q - base.len() - 1]);
                    }
                }
            }
        }
        let next = k + 1;
        if emitted.insert(candidate.clone()) {
            proof {
                assert(is_free_suffix(base, k0 as nat, k as nat, used));
                lemma_free_suffix_exists(base, k0 as nat, used);
                lemma_free_suffix_unique(base, k0 as nat, k as nat, free_suffix(base, k0 as nat, used), used);
            }
            prior.set(slug, next);
            return candidate;
        }
        proof {
            lemma_emitted_run_bounded(base, k0 as nat, (k + 1) as nat, used);
        }
        k = next;
    }
}

/// One call of `heading_slug` for a heading with text `text`, on the
/// registry `(counters, emitted)`: the anchor it returns and the registry
/// after it.
pub open spec fn slug_call(text: Seq<char>, counters: Map<Seq<char>, usize>, emitted: Set<Seq<char>>) -> (Seq<char>, Map<Seq<char>, usize>, Set<Seq<char>>) {
    let base = slug_base(text);
    let k = assigned_suffix(base, counters, emitted);
    let s = slug_candidate(base, k);
    (s, counters.insert(base, (k + 1) as usize), emitted.insert(s))
}

/// Successive calls of `heading_slug` for headings with texts `texts`, from
/// the registry `(counters, emitted)`: the anchors returned, in order, and
/// the registry after the last call.
pub open spec fn slug_run(texts: Seq<Seq<char>>, counters: Map<Seq<char>, usize>, emitted: Set<Seq<char>>) -> (Seq<Seq<char>>, Map<Seq<char>, usize>, Set<Seq<char>>)
    decreases texts.len(),
{
    if texts.len() == 0 {
        (Seq::empty(), counters, emitted)
    } else {
        let prev = slug_run(texts.drop_last(), counters, emitted);
        let call = slug_call(texts.last(), prev.1, prev.2);
        (prev.0.push(call.0), call.1, call.2)
    }
}

/// Every heading of a document gets its own anchor: over any run of
/// headings, the anchors handed out are pairwise distinct, differ from every
/// anchor emitted before the run, and are all emitted after it.
pub proof fn law_heading_anchors_are_distinct(
    texts: Seq<Seq<char>>,
    counters: Map<Seq<char>, usize>,
    emitted: Set<Seq<char>>,
)
    requires
        emitted.finite(),
    ensures
        slug_run(texts, counters, emitted).0.len() == texts.len(),
        slug_run(texts, counters, emitted).2.finite(),
        emitted.subset_of(slug_run(texts, counters, emitted).2),
        forall|i: int, j: int|
            0 <= i < j < texts.len() ==> slug_run(texts, counters, emitted).0[i]
                != slug_run(texts, counters, emitted).0[j],
        forall|i: int|
            0 <= i < texts.len() ==> !emitted.contains(#[trigger] slug_run(texts, counters, emitted).0[i])
                && slug_run(texts, counters, emitted).2.contains(slug_run(texts, counters, emitted).0[i]),
    decreases texts.len(),
{
    if texts.len() > 0 {
        let prev = slug_run(texts.drop_last(), counters, emitted);
        law_heading_anchors_are_distinct(texts.drop_last(), counters, emitted);
        let base = slug_base(texts.last());
        lemma_free_suffix_exists(base, start_suffix(base, prev.1), prev.2);
        let call = slug_call(texts.last(), prev.1, prev.2);
        let all = slug_run(texts, counters, emitted);
        assert(all.0 == prev.0.push(call.0));
        assert(!prev.2.contains(call.0));
        assert forall|i: int, j: int| 0 <= i < j < texts.len() implies all.0[i] != all.0[j] by {
            assert(all.0[i] == prev.0[i]);
            if j < texts.len() - 1 {
                assert(all.0[j] == prev.0[j]);
            } else {
                assert(prev.2.contains(prev.0[i]));
            }
        }
        assert forall|i: int| 0 <= i < texts.len() implies !emitted.contains(#[trigger] all.0[i])
            && all.2.contains(all.0[i]) by {
            if i < texts.len() - 1 {
                assert(all.0[i] == prev.0[i]);
            }
        }
    }
}

/// A heading whose slug has not been seen and whose plain slug is not yet an
/// anchor gets its plain slug: slugs are stable across documents.
pub proof fn law_fresh_heading_gets_its_plain_slug(
    text: Seq<char>,
    counters: Map<Seq<char>, usize>,
    emitted: Set<Seq<char>>,
)
    requires
        emitted.finite(),
        !counters.contains_key(slug_base(text)),
        !emitted.contains(slug_base(text)),
    ensures
        slug_candidate(slug_base(text), assigned_suffix(slug_base(text), counters, emitted)) == slug_base(text),
{
    let base = slug_base(text);
    lemma_free_suffix_exists(base, 0, emitted);
    assert(is_free_suffix(base, 0, 0, emitted));
    lemma_free_suffix_unique(base, 0, 0, assigned_suffix(base, counters, emitted), emitted);
}

/// Every counter is backed by emitted anchors: for each base slug, all of its
/// candidates below its counter have been handed out.
pub open spec fn registry_consistent(counters: Map<Seq<char>, usize>, emitted: Set<Seq<char>>) -> bool {
    forall|s: Seq<char>, j: nat|
        counters.contains_key(s) && j < counters[s] ==> emitted.contains(#[trigger] slug_candidate(s, j))
}

/// In a consistent registry no counter exceeds the number of emitted anchors.
pub proof fn lemma_consistent_counters_bounded(counters: Map<Seq<char>, usize>, emitted: Set<Seq<char>>)
    requires
        registry_consistent(counters, emitted),
        emitted.finite(),
    ensures
        forall|s: Seq<char>| #[trigger] counters.contains_key(s) ==> counters[s] <= emitted.len(),
{
    assert forall|s: Seq<char>| #[trigger] counters.contains_key(s) implies counters[s] <= emitted.len() by {
        assert forall|j: nat| 0 <= j < counters[s] implies emitted.contains(#[trigger] slug_candidate(s, j)) by {}
        lemma_emitted_run_bounded(s, 0, counters[s] as nat, emitted);
    }
}

/// Handing out the next anchor of a heading keeps the registry consistent.
pub proof fn lemma_assign_keeps_consistent(base: Seq<char>, counters: Map<Seq<char>, usize>, emitted: Set<Seq<char>>)
    requires
        registry_consistent(counters, emitted),
        emitted.finite(),
        assigned_suffix(base, counters, emitted) + 1 <= usize::MAX,
    ensures
        registry_consistent(
            counters.insert(base, (assigned_suffix(base, counters, emitted) + 1) as usize),
            emitted.insert(slug_candidate(base, assigned_suffix(base, counters, emitted))),
        ),
{
    let k0 = start_suffix(base, counters);
    let k = assigned_suffix(base, counters, emitted);
    lemma_free_suffix_exists(base, k0, emitted);
    let c2 = counters.insert(base, (k + 1) as usize);
    let e2 = emitted.insert(slug_candidate(base, k));
    assert forall|s: Seq<char>, j: nat| c2.contains_key(s) && j < c2[s] implies e2.contains(
        #[trigger] slug_candidate(s, j),
    ) by {
        if s == base {
            if j < k0 {
                assert(counters.contains_key(base));
            } else if j < k {
            } else {
                assert(j == k);
            }
        } else {
            assert(counters.contains_key(s) && counters[s] == c2[s]);
        }
    }
}

proof fn lemma_scan_chars_kept(chars: Seq<char>)
    ensures
        forall|i: int| 0 <= i < slug_scan(chars).0.len() ==> slug_keeps(#[trigger] slug_scan(chars).0[i]),
    decreases chars.len(),
{
    if chars.len() > 0 {
        let prev = slug_scan(chars.drop_last());
        let c = chars.last();
        lemma_scan_chars_kept(chars.drop_last());
        if slug_keeps(c) {
            let joined = if prev.1 && prev.0.len() > 0 && prev.0.last() != '-' {
                prev.0.push('-')
            } else {
                prev.0
            };
            assert forall|i: int| 0 <= i < joined.len() implies slug_keeps(#[trigger] joined[i]) by {
                if i < prev.0.len() {
                    assert(joined[i] == prev.0[i]);
                }
            }
            assert forall|i: int| 0 <= i < joined.push(c).len() implies slug_keeps(
                #[trigger] joined.push(c)[i],
            ) by {
                if i < joined.len() {
                    assert(joined.push(c)[i] == joined[i]);
                }
            }
        }
    }
}

/// A slug holds only alphanumerics, `_` and `-`: whitespace and punctuation
/// never survive into an anchor.
pub proof fn law_slug_holds_only_kept_chars(text: Seq<char>)
    ensures
        forall|i: int| 0 <= i < slug_base(text).len() ==> slug_keeps(#[trigger] slug_base(text)[i]),
{
    lemma_scan_chars_kept(lowered(text));
}

proof fn lemma_lowered_concat(a: Seq<char>, b: Seq<char>)
    ensures
        lowered(a + b) == lowered(a) + lowered(b),
    decreases b.len(),
{
    if b.len() == 0 {
        assert(a + b =~= a);
        assert(lowered(a) + lowered(b) =~= lowered(a));
    } else {
        assert((a + b).drop_last() =~= a + b.drop_last());
        assert((a + b).last() == b.last());
        lemma_lowered_concat(a, b.drop_last());
        assert(lowered(a) + lowered(b.drop_last()) + lowercase_of(b.last()) =~= lowered(a) + (lowered(
            b.drop_last(),
        ) + lowercase_of(b.last())));
    }
}

proof fn lemma_lowered_ascii(t: Seq<char>)
    requires
        ascii_char_tables_agree(),
        is_ascii_text(t),
    ensures
        lowered(t) == ascii_lowercase(t),
    decreases t.len(),
{
    if t.len() > 0 {
        let init = t.drop_last();
        assert(is_ascii_text(init)) by {
            assert forall|i: int| 0 <= i < init.len() implies (#[trigger] init[i] as u32) < 128 by {
                assert(init[i] == t[i]);
            }
        }
        lemma_lowered_ascii(init);
        assert((t[t.len() - 1] as u32) < 128);
        assert(lowercase_of(t.last()) == seq![ascii_lower_char(t.last())]);
        assert(ascii_lowercase(t) =~= ascii_lowercase(init).push(ascii_lower_char(t.last())));
        assert(ascii_lowercase(init) + seq![ascii_lower_char(t.last())] =~= ascii_lowercase(init).push(
            ascii_lower_char(t.last()),
        ));
    }
}

/// Slugs ignore ASCII case: two ASCII texts that differ only in the case of
/// their letters get the same slug.
pub proof fn law_slug_ignores_ascii_case(t1: Seq<char>, t2: Seq<char>)
    requires
        ascii_char_tables_agree(),
        is_ascii_text(t1),
        is_ascii_text(t2),
        ascii_lowercase(t1) == ascii_lowercase(t2),
    ensures
        slug_base(t1) == slug_base(t2),
{
    lemma_lowered_ascii(t1);
    lemma_lowered_ascii(t2);
}

proof fn lemma_scan_congruent(x1: Seq<char>, x2: Seq<char>, y: Seq<char>)
    requires
        slug_scan(x1) == slug_scan(x2),
    ensures
        slug_scan(x1 + y) == slug_scan(x2 + y),
    decreases y.len(),
{
    if y.len() == 0 {
        assert(x1 + y =~= x1);
        assert(x2 + y =~= x2);
    } else {
        lemma_scan_congruent(x1, x2, y.drop_last());
        assert((x1 + y).drop_last() =~= x1 + y.drop_last());
        assert((x2 + y).drop_last() =~= x2 + y.drop_last());
        assert((x1 + y).last() == y.last());
        assert((x2 + y).last() == y.last());
    }
}

/// A char that a slug drops in favour of a dash: ASCII whitespace.
pub open spec fn is_ascii_white_space(c: char) -> bool {
    (c as u32) < 128 && is_white_space(c)
}

proof fn lemma_scan_white_run(x: Seq<char>, w: Seq<char>)
    requires
        ascii_char_tables_agree(),
        w.len() > 0,
        forall|i: int| 0 <= i < w.len() ==> is_ascii_white_space(#[trigger] w[i]),
    ensures
        slug_scan(x + w) == (slug_scan(x).0, true),
    decreases w.len(),
{
    let c = w.last();
    assert(is_ascii_white_space(w[w.len() - 1]));
    assert(!is_ascii_alnum(c));
    assert(!slug_keeps(c));
    assert((x + w).drop_last() =~= x + w.drop_last());
    assert((x + w).last() == c);
    if w.len() > 1 {
        lemma_scan_white_run(x, w.drop_last());
    } else {
        assert(x + w.drop_last() =~= x);
    }
}

proof fn lemma_lowered_white_run(w: Seq<char>)
    requires
        ascii_char_tables_agree(),
        forall|i: int| 0 <= i < w.len() ==> is_ascii_white_space(#[trigger] w[i]),
    ensures
        lowered(w) == w,
{
    assert(is_ascii_text(w)) by {
        assert forall|i: int| 0 <= i < w.len() implies (#[trigger] w[i] as u32) < 128 by {
            assert(is_ascii_white_space(w[i]));
        }
    }
    lemma_lowered_ascii(w);
    assert forall|i: int| 0 <= i < w.len() implies #[trigger] ascii_lowercase(w)[i] == w[i] by {
        assert(is_ascii_white_space(w[i]));
    }
    assert(ascii_lowercase(w) =~= w);
}

/// Slugs ignore how much ASCII whitespace separates words: replacing a run
/// of ASCII whitespace by another run does not change the slug.
pub proof fn law_slug_ignores_ascii_whitespace_runs(a: Seq<char>, w1: Seq<char>, w2: Seq<char>, b: Seq<char>)
    requires
        ascii_char_tables_agree(),
        w1.len() > 0,
        w2.len() > 0,
        forall|i: int| 0 <= i < w1.len() ==> is_ascii_white_space(#[trigger] w1[i]),
        forall|i: int| 0 <= i < w2.len() ==> is_ascii_white_space(#[trigger] w2[i]),
    ensures
        slug_base(a + w1 + b) == slug_base(a + w2 + b),
{
    lemma_lowered_concat(a + w1, b);
    lemma_lowered_concat(a + w2, b);
    lemma_lowered_concat(a, w1);
    lemma_lowered_concat(a, w2);
    lemma_lowered_white_run(w1);
    lemma_lowered_white_run(w2);
    let x = lowered(a);
    lemma_scan_white_run(x, w1);
    lemma_scan_white_run(x, w2);
    lemma_scan_congruent(x + w1, x + w2, lowered(b));
}

/// Lowercase ASCII: no capital letters.
spec fn is_lower_ascii_text(s: Seq<char>) -> bool {
    forall|i: int| 0 <= i < s.len() ==> (#[trigger] s[i] as u32) < 128 && !is_ascii_upper(s[i])
}

proof fn lemma_scan_keeps_lower_ascii(x: Seq<char>)
    requires
        is_lower_ascii_text(x),
    ensures
        is_lower_ascii_text(slug_scan(x).0),
    decreases x.len(),
{
    if x.len() > 0 {
        let init = x.drop_last();
        assert(is_lower_ascii_text(init)) by {
            assert forall|i: int| 0 <= i < init.len() implies (#[trigger] init[i] as u32) < 128
                && !is_ascii_upper(init[i]) by {
                assert(init[i] == x[i]);
            }
        }
        lemma_scan_keeps_lower_ascii(init);
        let prev = slug_scan(init);
        let c = x.last();
        assert((x[x.len() - 1] as u32) < 128 && !is_ascii_upper(x[x.len() - 1]));
        if slug_keeps(c) {
            let joined = if prev.1 && prev.0.len() > 0 && prev.0.last() != '-' {
                prev.0.push('-')
            } else {
                prev.0
            };
            assert(is_lower_ascii_text(joined)) by {
                assert forall|i: int| 0 <= i < joined.len() implies (#[trigger] joined[i] as u32) < 128
                    && !is_ascii_upper(joined[i]) by {
                    if i < prev.0.len() {
                        assert(joined[i] == prev.0[i]);
                    }
                }
            }
            assert forall|i: int| 0 <= i < joined.push(c).len() implies (#[trigger] joined.push(c)[i] as u32)
                < 128 && !is_ascii_upper(joined.push(c)[i]) by {
                if i < joined.len() {
                    assert(joined.push(c)[i] == joined[i]);
                }
            }
        }
    }
}

proof fn lemma_scan_of_kept(s: Seq<char>)
    requires
        forall|i: int| 0 <= i < s.len() ==> slug_keeps(#[trigger] s[i]),
    ensures
        slug_scan(s) == (s, false),
    decreases s.len(),
{
    if s.len() > 0 {
        assert(slug_keeps(s[s.len() - 1]));
        lemma_scan_of_kept(s.drop_last());
        assert(s.drop_last().push(s.last()) =~= s);
    }
}

/// Slugs are settled on ASCII: the slug of an ASCII heading's slug is that
/// slug again.
pub proof fn law_ascii_slug_is_its_own_slug(t: Seq<char>)
    requires
        ascii_char_tables_agree(),
        is_ascii_text(t),
    ensures
        slug_base(slug_base(t)) == slug_base(t),
{
    let s = slug_base(t);
    lemma_lowered_ascii(t);
    assert(is_lower_ascii_text(ascii_lowercase(t))) by {
        assert forall|i: int| 0 <= i < ascii_lowercase(t).len() implies (#[trigger] ascii_lowercase(
            t,
        )[i] as u32) < 128 && !is_ascii_upper(ascii_lowercase(t)[i]) by {
            assert((t[i] as u32) < 128);
        }
    }
    lemma_scan_keeps_lower_ascii(ascii_lowercase(t));
    assert(is_ascii_text(s)) by {
        assert forall|i: int| 0 <= i < s.len() implies (#[trigger] s[i] as u32) < 128 by {
            assert(is_lower_ascii_text(s));
        }
    }
    lemma_lowered_ascii(s);
    assert forall|i: int| 0 <= i < s.len() implies #[trigger] ascii_lowercase(s)[i] == s[i] by {
        assert(is_lower_ascii_text(s));
    }
    assert(ascii_lowercase(s) =~= s);
    law_slug_holds_only_kept_chars(t);
    lemma_scan_of_kept(s);
}

/// A char that is neither kept nor whitespace leaves no trace in a slug:
/// dropping it from the (lowered) text changes nothing, so a dash in a slug
/// stands only for a source dash or a whitespace run.
pub proof fn law_dropped_char_leaves_no_trace(x: Seq<char>, c: char, y: Seq<char>)
    requires
        !slug_keeps(c),
        !is_white_space(c),
    ensures
        slug_scan(x + seq![c] + y) == slug_scan(x + y),
{
    assert((x + seq![c]).drop_last() =~= x);
    assert((x + seq![c]).last() == c);
    lemma_scan_congruent(x + seq![c], x, y);
}

/// On ASCII text, a char that is neither a letter, a digit, `_`, `-` nor
/// whitespace is dropped from the slug: the slug of `v1.2` is that of `v12`.
pub proof fn law_ascii_punctuation_is_dropped(a: Seq<char>, c: char, b: Seq<char>)
    requires
        ascii_char_tables_agree(),
        (c as u32) < 128,
        !is_ascii_alnum(c),
        c != '_',
        c != '-',
        !is_white_space(c),
    ensures
        slug_base(a + seq![c] + b) == slug_base(a + b),
{
    lemma_lowered_concat(a + seq![c], b);
    lemma_lowered_concat(a, seq![c]);
    lemma_lowered_concat(a, b);
    assert(seq![c].drop_last() =~= Seq::<char>::empty());
    assert(lowered(seq![c]) == lowered(Seq::<char>::empty()) + lowercase_of(c));
    assert(lowered(Seq::<char>::empty()) + lowercase_of(c) =~= lowercase_of(c));
    assert(lowercase_of(c) == seq![ascii_lower_char(c)]);
    assert(!is_ascii_upper(c));
    assert(lowered(seq![c]) == seq![c]);
    assert(!slug_keeps(c));
    law_dropped_char_leaves_no_trace(lowered(a), c, lowered(b));
}

} // verus!

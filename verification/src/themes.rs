//! Icon theme fallback hierarchy: the `Inherits` key of `index.theme` files and
//! the search through the themes it names.

use vstd::prelude::*;
use crate::text::{find, find_chars, find_whitespace, split_char, split_chars, to_chars, whitespace_from};

verus! {

broadcast use vstd::string::group_string_axioms;

/// The characters of a list of strings.
pub open spec fn views(v: Seq<String>) -> Seq<Seq<char>> {
    v.map_values(|s: String| s@)
}

/// The value of the first `Inherits=` key of an `index.theme` file, split at
/// commas; nothing where the key is missing.
pub open spec fn inherited_themes(index: Seq<char>) -> Seq<Seq<char>> {
    match find(index, "Inherits="@) {
        None => Seq::empty(),
        Some(at) => {
            let start = at + "Inherits="@.len();
            let end = match whitespace_from(index, start) {
                Some(end) => end,
                None => index.len() as int,
            };
            split_char(index.subrange(start, end), ',')
        },
    }
}

/// Parse index.theme and extract `Inherits` attribute. An unreadable file
/// (`None`) inherits nothing.
pub fn parse_index(index: Option<&str>) -> (r: Vec<String>)
    ensures
        views(r@) == match index {
            Some(content) => inherited_themes(content@),
            None => Seq::<Seq<char>>::empty(),
        },
{
    let content = match index {
        Some(content) => content,
        None => {
            let r: Vec<String> = Vec::new();
            assert(views(r@) =~= Seq::<Seq<char>>::empty());
            return r;
        },
    };
    let chars = to_chars(content);
    let key = to_chars("Inherits=");
    match find_chars(&chars, &key) {
        None => {
            let r: Vec<String> = Vec::new();
            assert(views(r@) =~= Seq::<Seq<char>>::empty());
            r
        },
        Some(at) => {
            proof {
                crate::text::lemma_find_in_bounds(chars@, key@, 0);
            }
            let start = at + key.len();
            let end = match find_whitespace(&chars, start) {
                Some(end) => end,
                None => chars.len(),
            };
            proof {
                if let Some(e) = whitespace_from(chars@, start as int) {
                    crate::text::lemma_whitespace_from_in_bounds(chars@, start as int);
                }
            }
            split_chars(&chars, start, end, ',')
        },
    }
}

/// The themes of `s` that do not occur earlier in `s`, from position `i` on.
pub open spec fn first_occurrences_from(s: Seq<Seq<char>>, i: int) -> Seq<Seq<char>>
    decreases s.len() - i,
{
    if i < 0 || i >= s.len() {
        Seq::empty()
    } else {
        let rest = first_occurrences_from(s, i + 1);
        if s.take(i).contains(s[i]) {
            rest
        } else {
            seq![s[i]] + rest
        }
    }
}

/// `s` without repeated themes, each kept where it first occurs.
pub open spec fn dedup(s: Seq<Seq<char>>) -> Seq<Seq<char>> {
    first_occurrences_from(s, 0)
}

/// What `first_occurrences_from` holds: first occurrences at or after `i`.
pub proof fn lemma_first_occurrences_contains(s: Seq<Seq<char>>, i: int, x: Seq<char>)
    requires
        0 <= i <= s.len(),
    ensures
        first_occurrences_from(s, i).contains(x) <==> exists|j: int|
            i <= j < s.len() && s[j] == x && !s.take(j).contains(x),
    decreases s.len() - i,
{
    if i < s.len() {
        lemma_first_occurrences_contains(s, i + 1, x);
        let rest = first_occurrences_from(s, i + 1);
        if !s.take(i).contains(s[i]) {
            if (seq![s[i]] + rest).contains(x) {
                let k = choose|k: int| 0 <= k < (seq![s[i]] + rest).len() && (seq![s[i]] + rest)[k]
                    == x;
                if k == 0 {
                    assert(s[i] == x);
                } else {
                    assert(rest[k - 1] == x);
                }
            }
            if exists|j: int| i <= j < s.len() && s[j] == x && !s.take(j).contains(x) {
                let j = choose|j: int| i <= j < s.len() && s[j] == x && !s.take(j).contains(x);
                if j == i {
                    assert((seq![s[i]] + rest)[0] == x);
                } else {
                    let k = choose|k: int| 0 <= k < rest.len() && rest[k] == x;
                    assert((seq![s[i]] + rest)[k + 1] == x);
                }
            }
        } else {
            if exists|j: int| i <= j < s.len() && s[j] == x && !s.take(j).contains(x) {
                let j = choose|j: int| i <= j < s.len() && s[j] == x && !s.take(j).contains(x);
                if j == i {
                    assert(false);
                }
            }
        }
    }
}

/// First occurrences are pairwise distinct.
pub proof fn lemma_first_occurrences_distinct(s: Seq<Seq<char>>, i: int)
    requires
        0 <= i <= s.len(),
    ensures
        first_occurrences_from(s, i).no_duplicates(),
    decreases s.len() - i,
{
    if i < s.len() {
        lemma_first_occurrences_distinct(s, i + 1);
        let rest = first_occurrences_from(s, i + 1);
        if !s.take(i).contains(s[i]) {
            lemma_first_occurrences_contains(s, i + 1, s[i]);
            if rest.contains(s[i]) {
                let j = choose|j: int|
                    i + 1 <= j < s.len() && s[j] == s[i] && !s.take(j).contains(s[i]);
                assert(s.take(j)[i] == s[i]);
            }
            let r = seq![s[i]] + rest;
            assert forall|a: int, b: int| 0 <= a < r.len() && 0 <= b < r.len() && a != b implies r[a]
                != r[b] by {
                if a == 0 {
                    assert(rest[b - 1] == r[b]);
                } else if b == 0 {
                    assert(rest[a - 1] == r[a]);
                } else {
                    assert(rest[a - 1] == r[a]);
                    assert(rest[b - 1] == r[b]);
                }
            }
        }
    }
}

/// A list without repeated themes has no repeated themes after `dedup`, and
/// holds exactly the themes of the list it was made from.
pub proof fn lemma_dedup(s: Seq<Seq<char>>)
    ensures
        dedup(s).no_duplicates(),
        forall|x: Seq<char>| dedup(s).contains(x) <==> s.contains(x),
{
    lemma_first_occurrences_distinct(s, 0);
    assert forall|x: Seq<char>| dedup(s).contains(x) <==> s.contains(x) by {
        lemma_first_occurrences_contains(s, 0, x);
        if s.contains(x) {
            let j = choose|j: int| 0 <= j < s.len() && s[j] == x;
            lemma_first_index(s, x, j);
        }
    }
}

/// Where `x` occurs, it has a first occurrence.
proof fn lemma_first_index(s: Seq<Seq<char>>, x: Seq<char>, j: int)
    requires
        0 <= j < s.len(),
        s[j] == x,
    ensures
        exists|k: int| 0 <= k < s.len() && s[k] == x && !s.take(k).contains(x),
    decreases j,
{
    if s.take(j).contains(x) {
        let k = choose|k: int| 0 <= k < j && s.take(j)[k] == x;
        assert(s[k] == x);
        lemma_first_index(s, x, k);
    }
}

/// Deduplicating a list that starts with themes that are already distinct
/// keeps those themes, in place, at its start.
pub proof fn lemma_dedup_keeps_distinct_prefix(a: Seq<Seq<char>>, b: Seq<Seq<char>>)
    requires
        a.no_duplicates(),
    ensures
        dedup(a + b) == a + first_occurrences_from(a + b, a.len() as int),
{
    lemma_first_occurrences_prefix(a, b, 0);
    assert(a.skip(0) =~= a);
}

proof fn lemma_first_occurrences_prefix(a: Seq<Seq<char>>, b: Seq<Seq<char>>, i: int)
    requires
        a.no_duplicates(),
        0 <= i <= a.len(),
    ensures
        first_occurrences_from(a + b, i) == a.skip(i) + first_occurrences_from(
            a + b,
            a.len() as int,
        ),
    decreases a.len() - i,
{
    let s = a + b;
    if i < a.len() {
        lemma_first_occurrences_prefix(a, b, i + 1);
        if s.take(i).contains(s[i]) {
            let k = choose|k: int| 0 <= k < i && s.take(i)[k] == s[i];
            assert(a[k] == a[i]);
        }
        assert(a.skip(i) =~= seq![a[i]] + a.skip(i + 1));
        assert(first_occurrences_from(s, i) =~= a.skip(i) + first_occurrences_from(
            s,
            a.len() as int,
        ));
    } else {
        assert(a.skip(i) =~= Seq::<Seq<char>>::empty());
        assert(first_occurrences_from(s, i) =~= a.skip(i) + first_occurrences_from(
            s,
            a.len() as int,
        ));
    }
}

/// Whether `v[..end]` holds a string equal to `x`.
fn contains_before(v: &Vec<String>, end: usize, x: &String) -> (r: bool)
    requires
        end <= v@.len(),
    ensures
        r == views(v@).take(end as int).contains(x@),
{
    let mut i: usize = 0;
    while i < end
        invariant
            i <= end <= v@.len(),
            forall|k: int| 0 <= k < i ==> v@[k]@ != x@,
        decreases end - i,
    {
        if v[i] == *x {
            assert(views(v@).take(end as int)[i as int] == x@);
            return true;
        }
        i += 1;
    }
    proof {
        if views(v@).take(end as int).contains(x@) {
            let k = choose|k: int| 0 <= k < end && views(v@).take(end as int)[k] == x@;
            assert(v@[k]@ == x@);
        }
    }
    false
}

/// Removes every theme that occurs earlier in the list, keeping first
/// occurrences in order.
pub fn dedup_themes(all_themes: &mut Vec<String>)
    ensures
        views(final(all_themes)@) == dedup(views(old(all_themes)@)),
{
    let ghost s = views(all_themes@);
    let mut i: usize = all_themes.len();
    assert(s.take(i as int) =~= s);
    while i > 0
        invariant
            i <= s.len(),
            views(all_themes@) == s.take(i as int) + first_occurrences_from(s, i as int),
            s == views(old(all_themes)@),
        decreases i,
    {
        let j = i - 1;
        assert(all_themes@.len() == views(all_themes@).len());
        assert(views(all_themes@)[j as int] == s[j as int]);
        assert(views(all_themes@).take(j as int) =~= s.take(j as int));
        let x = all_themes[j].clone();
        if contains_before(all_themes, j, &x) {
            let ghost before = all_themes@;
            all_themes.remove(j);
            assert(first_occurrences_from(s, j as int) == first_occurrences_from(s, i as int));
            assert(views(all_themes@) =~= views(before).remove(j as int));
            assert(views(all_themes@) =~= s.take(j as int) + first_occurrences_from(s, j as int));
        } else {
            assert(s.take(j as int).push(s[j as int]) =~= s.take(i as int));
            assert(views(all_themes@) =~= s.take(j as int) + first_occurrences_from(s, j as int));
        }
        i = j;
    }
    assert(s.take(0) + first_occurrences_from(s, 0) =~= dedup(s));
}

/// The search through an icon theme directory's fallback hierarchy: the
/// themes found so far, and how many of them have had their `index.theme`
/// read.
pub struct ThemeSearch {
    all_themes: Vec<String>,
    index: usize,
}

impl ThemeSearch {
    /// The themes found so far.
    pub closed spec fn themes(&self) -> Seq<Seq<char>> {
        views(self.all_themes@)
    }

    /// How many themes have had their `index.theme` read.
    pub closed spec fn searched(&self) -> nat {
        self.index as nat
    }

    /// The themes are distinct, start with `default`, and the searched ones
    /// are among them.
    pub open spec fn wf(&self) -> bool {
        &&& self.themes().no_duplicates()
        &&& self.themes().len() >= 1
        &&& self.themes()[0] == "default"@
        &&& self.searched() <= self.themes().len()
    }

    /// A search that starts from the `default` theme.
    pub fn new() -> (r: Self)
        ensures
            r.wf(),
            r.themes() == seq!["default"@],
            r.searched() == 0,
    {
        let mut all_themes: Vec<String> = Vec::new();
        all_themes.push("default".to_owned());
        let r = ThemeSearch { all_themes, index: 0 };
        assert(r.themes() =~= seq!["default"@]);
        r
    }

    /// The next theme whose `index.theme` is to be read, if any.
    pub fn pending(&self) -> (r: Option<&String>)
        requires
            self.wf(),
        ensures
            r matches Some(t) ==> self.searched() < self.themes().len() && t@ == self.themes()[self.searched() as int],
            r is None ==> self.searched() == self.themes().len(),
    {
        if self.index < self.all_themes.len() {
            Some(&self.all_themes[self.index])
        } else {
            None
        }
    }

    /// The themes found, in order of importance.
    pub fn into_themes(self) -> (r: Vec<String>)
        ensures
            views(r@) == self.themes(),
    {
        self.all_themes
    }
}

/// Recursively parse theme specs to find theme fallback hierarchy: one step,
/// which adds the themes that the pending theme inherits and drops those
/// already found.
pub fn themes_for_dir(search: &mut ThemeSearch, inherited: Vec<String>)
    requires
        old(search).wf(),
        old(search).searched() < old(search).themes().len(),
    ensures
        final(search).wf(),
        final(search).themes() == dedup(old(search).themes() + views(inherited@)),
        final(search).searched() == old(search).searched() + 1,
        final(search).themes().take(old(search).themes().len() as int) == old(search).themes(),
{
    let ghost old_themes = search.themes();
    let idx = search.index;
    let n = search.all_themes.len();
    assert(idx < n);
    let mut inherited = inherited;
    let ghost inh = views(inherited@);
    search.all_themes.append(&mut inherited);
    assert(views(search.all_themes@) =~= old_themes + inh);
    dedup_themes(&mut search.all_themes);
    search.index = idx + 1;
    proof {
        lemma_dedup(old_themes + inh);
        lemma_dedup_keeps_distinct_prefix(old_themes, inh);
        assert((old_themes + first_occurrences_from(old_themes + inh, old_themes.len() as int)).take(
            old_themes.len() as int,
        ) =~= old_themes);
        assert(search.themes()[0] == old_themes[0]);
    }
}

/// The search through the fallback hierarchy, `n` steps on from `themes`, the
/// first `searched` of which have had their `index.theme` read; `inherits`
/// gives the themes that each theme's `index.theme` names. Each step is one
/// `themes_for_dir`; the search stops once no theme is pending.
pub open spec fn search_after(
    themes: Seq<Seq<char>>,
    searched: nat,
    inherits: spec_fn(Seq<char>) -> Seq<Seq<char>>,
    n: nat,
) -> (Seq<Seq<char>>, nat)
    decreases n,
{
    if n == 0 || searched >= themes.len() {
        (themes, searched)
    } else {
        search_after(
            dedup(themes + inherits(themes[searched as int])),
            searched + 1,
            inherits,
            (n - 1) as nat,
        )
    }
}

/// Every theme that one of the first `searched` themes inherits is among the
/// themes.
pub open spec fn inherited_found(
    themes: Seq<Seq<char>>,
    searched: nat,
    inherits: spec_fn(Seq<char>) -> Seq<Seq<char>>,
) -> bool {
    forall|i: int, x: Seq<char>|
        0 <= i < searched && #[trigger] inherits(themes[i]).contains(x) ==> themes.contains(x)
}

/// One step of the search is one call of `themes_for_dir` with what the
/// pending theme inherits: the search state after the call, `n` steps on, is
/// the state before it, `n + 1` steps on.
pub proof fn lemma_search_step(
    themes: Seq<Seq<char>>,
    searched: nat,
    inherits: spec_fn(Seq<char>) -> Seq<Seq<char>>,
    n: nat,
)
    requires
        searched < themes.len(),
    ensures
        search_after(themes, searched, inherits, n + 1) == search_after(
            dedup(themes + inherits(themes[searched as int])),
            searched + 1,
            inherits,
            n,
        ),
{
}

/// The search keeps its themes distinct, within `names`, starting with the
/// same themes, and holding what each searched theme inherits; with enough
/// steps left it ends with every theme searched.
proof fn lemma_search_invariant(
    themes: Seq<Seq<char>>,
    searched: nat,
    inherits: spec_fn(Seq<char>) -> Seq<Seq<char>>,
    names: Set<Seq<char>>,
    n: nat,
)
    requires
        names.finite(),
        forall|t: Seq<char>, x: Seq<char>|
            names.contains(t) && #[trigger] inherits(t).contains(x) ==> names.contains(x),
        themes.no_duplicates(),
        forall|x: Seq<char>| themes.contains(x) ==> names.contains(x),
        searched <= themes.len(),
        inherited_found(themes, searched, inherits),
        n + searched >= names.len(),
    ensures
        ({
            let (r, k) = search_after(themes, searched, inherits, n);
            &&& k == r.len()
            &&& r.no_duplicates()
            &&& forall|x: Seq<char>| r.contains(x) ==> names.contains(x)
            &&& r.len() >= themes.len()
            &&& r.take(themes.len() as int) == themes
            &&& inherited_found(r, k, inherits)
        }),
    decreases n,
{
    themes.unique_seq_to_set();
    assert(themes.to_set().subset_of(names));
    vstd::set_lib::lemma_len_subset(themes.to_set(), names);
    if searched >= themes.len() {
        assert(themes.take(themes.len() as int) =~= themes);
    } else {
        let inh = inherits(themes[searched as int]);
        let next = dedup(themes + inh);
        lemma_dedup(themes + inh);
        lemma_dedup_keeps_distinct_prefix(themes, inh);
        let tail = first_occurrences_from(themes + inh, themes.len() as int);
        assert(next == themes + tail);
        assert(next.take(themes.len() as int) =~= themes);
        assert forall|x: Seq<char>| next.contains(x) implies names.contains(x) by {
            assert((themes + inh).contains(x));
            let j = choose|j: int| 0 <= j < (themes + inh).len() && (themes + inh)[j] == x;
            if j < themes.len() {
                assert(themes[j] == x);
            } else {
                assert(inh[j - themes.len()] == x);
                assert(inh.contains(x));
                assert(names.contains(themes[searched as int]));
            }
        }
        assert forall|x: Seq<char>| themes.contains(x) implies next.contains(x) by {
            let j = choose|j: int| 0 <= j < themes.len() && themes[j] == x;
            assert((themes + inh)[j] == x);
        }
        assert forall|i: int, x: Seq<char>|
            0 <= i < searched + 1 && #[trigger] inherits(next[i]).contains(x) implies next.contains(
            x,
        ) by {
            assert(next[i] == themes[i]);
            if i == searched {
                let j = choose|j: int| 0 <= j < inh.len() && inh[j] == x;
                assert((themes + inh)[themes.len() + j] == x);
                assert((themes + inh).contains(x));
            } else {
                assert(inherits(themes[i]).contains(x));
                assert(themes.contains(x));
            }
        }
        lemma_search_invariant(next, searched + 1, inherits, names, (n - 1) as nat);
        let (r, k) = search_after(next, searched + 1, inherits, (n - 1) as nat);
        assert(r.take(themes.len() as int) =~= r.take(next.len() as int).take(themes.len() as int));
    }
}

/// Recursively parsing theme specs finds the whole fallback hierarchy and
/// ends: where every theme named lies in a finite set `names` holding
/// `default`, the search from `default` has searched every theme it found
/// after `names.len()` steps. The themes found are distinct, start with
/// `default`, lie in `names`, and hold every theme that one of them inherits.
pub proof fn lemma_theme_search_ends(
    inherits: spec_fn(Seq<char>) -> Seq<Seq<char>>,
    names: Set<Seq<char>>,
)
    requires
        names.finite(),
        names.contains("default"@),
        forall|t: Seq<char>, x: Seq<char>|
            names.contains(t) && #[trigger] inherits(t).contains(x) ==> names.contains(x),
    ensures
        ({
            let (r, k) = search_after(seq!["default"@], 0, inherits, names.len());
            &&& k == r.len()
            &&& r.no_duplicates()
            &&& r.len() >= 1 && r[0] == "default"@
            &&& forall|x: Seq<char>| r.contains(x) ==> names.contains(x)
            &&& forall|t: Seq<char>, x: Seq<char>|
                r.contains(t) && #[trigger] inherits(t).contains(x) ==> r.contains(x)
        }),
{
    let start = seq!["default"@];
    assert forall|x: Seq<char>| start.contains(x) implies names.contains(x) by {
        assert(start[0] == x);
    }
    lemma_search_invariant(start, 0, inherits, names, names.len());
    let (r, k) = search_after(start, 0, inherits, names.len());
    assert(r.take(1)[0] == r[0]);
    assert(r[0] == start[0]);
    assert forall|t: Seq<char>, x: Seq<char>|
        r.contains(t) && #[trigger] inherits(t).contains(x) implies r.contains(x) by {
        let i = choose|i: int| 0 <= i < r.len() && r[i] == t;
        assert(inherits(r[i]).contains(x));
    }
}

} // verus!

//! The record of which parts were already converted, and which of their assets.
use vstd::prelude::*;
use crate::text::{
    str_lt, chars_of, chars_eq, chars_lt, extend_chars, extend_str, lines, lines_of, seq_lt, split_on,
    split_chars, string_from, trim, trim_chars, lemma_split_prefix_nonempty,
};

verus! {

/// Which generated asset kinds are recorded as finished for one component.
#[derive(Debug, Clone, Copy, PartialEq, Eq, Structural)]
pub struct CompletedAssets {
    pub symbol: bool,
    pub footprint: bool,
    pub model_3d: bool,
}

/// The assets of `a` together with those of `b`.
pub open spec fn union(a: CompletedAssets, b: CompletedAssets) -> CompletedAssets {
    CompletedAssets {
        symbol: a.symbol || b.symbol,
        footprint: a.footprint || b.footprint,
        model_3d: a.model_3d || b.model_3d,
    }
}

pub open spec fn no_assets() -> CompletedAssets {
    CompletedAssets { symbol: false, footprint: false, model_3d: false }
}

/// `a` holds every asset that `required` asks for.
pub open spec fn covers_spec(a: CompletedAssets, required: CompletedAssets) -> bool {
    (!required.symbol || a.symbol) && (!required.footprint || a.footprint) && (!required.model_3d
        || a.model_3d)
}

/// The letters that stand for the assets of `a`, in the order `s`, `f`, `m`.
pub open spec fn encoded(a: CompletedAssets) -> Seq<char> {
    (if a.symbol {
        seq!['s']
    } else {
        Seq::empty()
    }) + (if a.footprint {
        seq!['f']
    } else {
        Seq::empty()
    }) + (if a.model_3d {
        seq!['m']
    } else {
        Seq::empty()
    })
}

/// The assets that the letters `v` name; `None` for any other letter or for no asset.
pub open spec fn decoded(v: Seq<char>) -> Option<CompletedAssets> {
    let a = CompletedAssets { symbol: v.contains('s'), footprint: v.contains('f'), model_3d: v.contains('m') };
    if exists|i: int| 0 <= i < v.len() && v[i] != 's' && v[i] != 'f' && v[i] != 'm' {
        None
    } else if a == no_assets() {
        None
    } else {
        Some(a)
    }
}

impl Default for CompletedAssets {
    fn default() -> (r: Self)
        ensures
            r == no_assets(),
    {
        CompletedAssets::none()
    }
}

impl CompletedAssets {
    /// Every asset kind.
    pub fn all() -> (r: Self)
        ensures
            r == (CompletedAssets { symbol: true, footprint: true, model_3d: true }),
    {
        CompletedAssets { symbol: true, footprint: true, model_3d: true }
    }

    /// No asset kind.
    pub fn none() -> (r: Self)
        ensures
            r == no_assets(),
    {
        CompletedAssets { symbol: false, footprint: false, model_3d: false }
    }

    /// Whether every asset kind that `required` asks for is done here.
    pub fn covers(self, required: Self) -> (r: bool)
        ensures
            r == covers_spec(self, required),
    {
        (!required.symbol || self.symbol) && (!required.footprint || self.footprint) && (
        !required.model_3d || self.model_3d)
    }

    /// Adds the asset kinds of `other`.
    pub fn union_assign(&mut self, other: Self)
        ensures
            *final(self) == union(*old(self), other),
    {
        self.symbol = self.symbol || other.symbol;
        self.footprint = self.footprint || other.footprint;
        self.model_3d = self.model_3d || other.model_3d;
    }

    /// The letters that stand for these assets.
    pub fn encode(self) -> (r: String)
        ensures
            r@ == encoded(self),
    {
        let mut v: Vec<char> = Vec::new();
        if self.symbol {
            v.push('s');
        }
        if self.footprint {
            v.push('f');
        }
        if self.model_3d {
            v.push('m');
        }
        assert(v@ =~= encoded(self));
        string_from(v.as_slice())
    }

    /// The assets named by the letters of `value`.
    pub fn decode(value: &str) -> (r: Option<Self>)
        ensures
            r == decoded(value@),
    {
        let cs = chars_of(value);
        let mut a = CompletedAssets::none();
        let mut i: usize = 0;
        while i < cs.len()
            invariant
                i <= cs.len(),
                cs@ == value@,
                forall|j: int| 0 <= j < i ==> cs@[j] == 's' || cs@[j] == 'f' || cs@[j] == 'm',
                a.symbol == cs@.take(i as int).contains('s'),
                a.footprint == cs@.take(i as int).contains('f'),
                a.model_3d == cs@.take(i as int).contains('m'),
            decreases cs.len() - i,
        {
            let c = cs[i];
            if c == 's' {
                a.symbol = true;
            } else if c == 'f' {
                a.footprint = true;
            } else if c == 'm' {
                a.model_3d = true;
            } else {
                return None;
            }
            i = i + 1;
            assert forall|x: char| #[trigger] cs@.take(i as int).contains(x) <==> (cs@.take(
                i - 1,
            ).contains(x) || x == c) by {
                if cs@.take(i as int).contains(x) {
                    let j = choose|j: int| 0 <= j < i && #[trigger] cs@.take(i as int)[j] == x;
                    if j < i - 1 {
                        assert(cs@.take(i - 1)[j] == x);
                    }
                }
                if cs@.take(i - 1).contains(x) {
                    let j = choose|j: int| 0 <= j < i - 1 && #[trigger] cs@.take(i - 1)[j] == x;
                    assert(cs@.take(i as int)[j] == x);
                }
                if x == c {
                    assert(cs@.take(i as int)[i - 1] == x);
                }
            }
        }
        assert(cs@.take(cs.len() as int) =~= cs@);
        if !a.symbol && !a.footprint && !a.model_3d {
            None
        } else {
            Some(a)
        }
    }
}

/// Law: the letters written for a non-empty set of assets read back as the same set.
pub proof fn law_decode_inverts_encode(a: CompletedAssets)
    requires
        a != no_assets(),
    ensures
        decoded(encoded(a)) == Some(a),
{
    let e = encoded(a);
    assert(e.contains('s') == a.symbol) by {
        if a.symbol {
            assert(e[0] == 's');
        }
    }
    assert(e.contains('f') == a.footprint) by {
        if a.footprint {
            if a.symbol {
                assert(e[1] == 'f');
            } else {
                assert(e[0] == 'f');
            }
        }
    }
    assert(e.contains('m') == a.model_3d) by {
        if a.model_3d {
            assert(e[e.len() - 1] == 'm');
        }
    }
}

/// Law: the union holds both sets of assets, and a set covers another exactly when adding
/// the other changes nothing.
pub proof fn law_union_covers(a: CompletedAssets, b: CompletedAssets)
    ensures
        covers_spec(union(a, b), a),
        covers_spec(union(a, b), b),
        covers_spec(a, b) <==> union(a, b) == a,
{
}

/// The part number and assets of one trimmed checkpoint line: `id<TAB>letters`, or a bare
/// part number, which counts as every asset done.
pub open spec fn parsed_line(line: Seq<char>) -> (Seq<char>, CompletedAssets) {
    let pieces = split_on(line, '\t');
    if pieces.len() >= 2 && decoded(line.skip(pieces[0].len() + 1int)) is Some {
        (trim(pieces[0]), decoded(line.skip(pieces[0].len() + 1int))->0)
    } else {
        (line, CompletedAssets { symbol: true, footprint: true, model_3d: true })
    }
}

/// Reads one checkpoint line.
pub fn parse_checkpoint_line(line: &str) -> (r: (String, CompletedAssets))
    ensures
        (r.0@, r.1) == parsed_line(line@),
{
    let cs = chars_of(line);
    let pieces = split_chars(cs.as_slice(), '\t');
    proof {
        lemma_split_prefix_nonempty(line@, '\t', line@.len() as int);
        crate::text::lemma_split_first_piece(line@, '\t');
    }
    if pieces.len() >= 2 {
        let first_len = pieces[0].len();
        let rest = crate::sexpr::slice_range(cs.as_slice(), first_len + 1, cs.len());
        assert(rest@ =~= line@.skip(first_len + 1));
        let s = string_from(rest.as_slice());
        match CompletedAssets::decode(s.as_str()) {
            Some(a) => {
                let id = trim_chars(pieces[0].as_slice());
                return (string_from(id.as_slice()), a);
            },
            None => {},
        }
    }
    (string_from(cs.as_slice()), CompletedAssets::all())
}

/// A checkpoint entry: a part number and its finished assets.
pub type Entry = (Seq<char>, CompletedAssets);

pub open spec fn entries_view(v: Seq<(String, CompletedAssets)>) -> Seq<Entry> {
    v.map_values(|e: (String, CompletedAssets)| (e.0@, e.1))
}

/// The entries after recording assets `a` for part `k`: merged into its entry, or a new
/// entry in key order.
pub open spec fn merge_entry(s: Seq<Entry>, k: Seq<char>, a: CompletedAssets) -> Seq<Entry>
    decreases s.len(),
{
    if s.len() == 0 {
        seq![(k, a)]
    } else if s[0].0 == k {
        seq![(k, union(s[0].1, a))] + s.skip(1)
    } else if seq_lt(k, s[0].0) {
        seq![(k, a)] + s
    } else {
        seq![s[0]] + merge_entry(s.skip(1), k, a)
    }
}

/// Keys in strictly increasing order, and no entry without assets.
pub open spec fn entries_wf(s: Seq<Entry>) -> bool {
    &&& forall|i: int, j: int| 0 <= i < j < s.len() ==> seq_lt(#[trigger] s[i].0, #[trigger] s[j].0)
    &&& forall|i: int| 0 <= i < s.len() ==> (#[trigger] s[i]).1 != no_assets()
}

pub proof fn lemma_seq_lt_irreflexive(a: Seq<char>)
    ensures
        !seq_lt(a, a),
    decreases a.len(),
{
    if a.len() > 0 {
        lemma_seq_lt_irreflexive(a.skip(1));
    }
}

pub proof fn lemma_seq_lt_total(a: Seq<char>, b: Seq<char>)
    ensures
        a == b || seq_lt(a, b) || seq_lt(b, a),
    decreases a.len(),
{
    if a.len() == 0 && b.len() == 0 {
        assert(a =~= b);
    }
    if a.len() > 0 && b.len() > 0 && a[0] == b[0] {
        lemma_seq_lt_total(a.skip(1), b.skip(1));
        if a.skip(1) == b.skip(1) {
            assert(a =~= seq![a[0]] + a.skip(1));
            assert(b =~= seq![b[0]] + b.skip(1));
        }
    }
}

pub proof fn lemma_seq_lt_transitive(a: Seq<char>, b: Seq<char>, c: Seq<char>)
    requires
        seq_lt(a, b),
        seq_lt(b, c),
    ensures
        seq_lt(a, c),
    decreases a.len(),
{
    if a.len() > 0 && b.len() > 0 && c.len() > 0 && a[0] == b[0] && b[0] == c[0] {
        lemma_seq_lt_transitive(a.skip(1), b.skip(1), c.skip(1));
    }
}

pub proof fn lemma_seq_lt_asym(a: Seq<char>, b: Seq<char>)
    requires
        seq_lt(a, b),
    ensures
        !seq_lt(b, a),
{
    if seq_lt(b, a) {
        lemma_seq_lt_transitive(a, b, a);
        lemma_seq_lt_irreflexive(a);
    }
}

/// Merging keeps the entries well formed, and every key it holds was held before or is `k`.
pub proof fn lemma_merge_wf(s: Seq<Entry>, k: Seq<char>, a: CompletedAssets)
    requires
        entries_wf(s),
        a != no_assets(),
    ensures
        entries_wf(merge_entry(s, k, a)),
        forall|i: int|
            0 <= i < merge_entry(s, k, a).len() ==> (#[trigger] merge_entry(s, k, a)[i]).0 == k
                || s.contains(merge_entry(s, k, a)[i]) || exists|j: int|
                0 <= j < s.len() && s[j].0 == merge_entry(s, k, a)[i].0,
    decreases s.len(),
{
    let m = merge_entry(s, k, a);
    if s.len() == 0 {
    } else if s[0].0 == k {
        assert forall|i: int, j: int| 0 <= i < j < m.len() implies seq_lt(#[trigger] m[i].0, #[trigger] m[j].0) by {
            assert(m[i].0 == s[i].0);
            assert(m[j].0 == s[j].0);
        }
        assert forall|i: int| 0 <= i < m.len() implies (#[trigger] m[i]).0 == k || s.contains(m[i]) || exists|j: int|
            0 <= j < s.len() && s[j].0 == m[i].0 by {
            assert(m[i].0 == s[i].0);
        }
    } else if seq_lt(k, s[0].0) {
        assert forall|i: int, j: int| 0 <= i < j < m.len() implies seq_lt(#[trigger] m[i].0, #[trigger] m[j].0) by {
            if i == 0 {
                if j > 1 {
                    lemma_seq_lt_transitive(k, s[0].0, s[j - 1].0);
                }
            } else {
                assert(m[i] == s[i - 1]);
                assert(m[j] == s[j - 1]);
            }
        }
        assert forall|i: int| 0 <= i < m.len() implies (#[trigger] m[i]).0 == k || s.contains(m[i]) || exists|j: int|
            0 <= j < s.len() && s[j].0 == m[i].0 by {
            if i > 0 {
                assert(m[i] == s[i - 1]);
            }
        }
    } else {
        let t = s.skip(1);
        assert(entries_wf(t)) by {
            assert forall|i: int, j: int| 0 <= i < j < t.len() implies seq_lt(#[trigger] t[i].0, #[trigger] t[j].0) by {
                assert(t[i] == s[i + 1]);
                assert(t[j] == s[j + 1]);
            }
            assert forall|i: int| 0 <= i < t.len() implies (#[trigger] t[i]).1 != no_assets() by {
                assert(t[i] == s[i + 1]);
            }
        }
        lemma_merge_wf(t, k, a);
        let mt = merge_entry(t, k, a);
        lemma_seq_lt_total(k, s[0].0);
        assert forall|i: int| 0 <= i < mt.len() implies seq_lt(s[0].0, #[trigger] mt[i].0) by {
            if mt[i].0 == k {
            } else if t.contains(mt[i]) {
                let j = choose|j: int| 0 <= j < t.len() && t[j] == mt[i];
                assert(t[j] == s[j + 1]);
            } else {
                let j = choose|j: int| 0 <= j < t.len() && t[j].0 == mt[i].0;
                assert(t[j] == s[j + 1]);
            }
        }
        assert forall|i: int, j: int| 0 <= i < j < m.len() implies seq_lt(#[trigger] m[i].0, #[trigger] m[j].0) by {
            if i == 0 {
                assert(m[j] == mt[j - 1]);
            } else {
                assert(m[i] == mt[i - 1]);
                assert(m[j] == mt[j - 1]);
            }
        }
        assert forall|i: int| 0 <= i < m.len() implies (#[trigger] m[i]).1 != no_assets() by {
            if i > 0 {
                assert(m[i] == mt[i - 1]);
            }
        }
        assert forall|i: int| 0 <= i < m.len() implies (#[trigger] m[i]).0 == k || s.contains(m[i]) || exists|j: int|
            0 <= j < s.len() && s[j].0 == m[i].0 by {
            if i == 0 {
                assert(s[0] == m[0]);
            } else {
                let x = mt[i - 1];
                assert(m[i] == x);
                if x.0 == k {
                } else if t.contains(x) {
                    let j = choose|j: int| 0 <= j < t.len() && t[j] == x;
                    assert(s[j + 1] == x);
                } else {
                    let j = choose|j: int| 0 <= j < t.len() && t[j].0 == x.0;
                    assert(s[j + 1].0 == x.0);
                }
            }
        }
    }
}

/// Merging at position `i`, past keys that all sort before `k`.
proof fn lemma_merge_skip(s: Seq<Entry>, k: Seq<char>, a: CompletedAssets, i: int)
    requires
        0 <= i <= s.len(),
        forall|j: int| 0 <= j < i ==> seq_lt(#[trigger] s[j].0, k),
    ensures
        merge_entry(s, k, a) == s.take(i) + merge_entry(s.skip(i), k, a),
    decreases i,
{
    if i > 0 {
        lemma_seq_lt_asym(s[0].0, k);
        lemma_seq_lt_irreflexive(k);
        let t = s.skip(1);
        assert forall|j: int| 0 <= j < i - 1 implies seq_lt(#[trigger] t[j].0, k) by {
            assert(t[j] == s[j + 1]);
        }
        lemma_merge_skip(t, k, a, i - 1);
        assert(t.skip(i - 1) =~= s.skip(i));
        assert(s.take(i) =~= seq![s[0]] + t.take(i - 1));
    } else {
        assert(s.skip(0) =~= s);
    }
}

/// Records assets `a` for part `k` in the sorted entries `v`.
fn merge_into(v: &mut Vec<(String, CompletedAssets)>, k: &str, a: CompletedAssets)
    requires
        entries_wf(entries_view(old(v)@)),
        a != no_assets(),
    ensures
        entries_view(final(v)@) == merge_entry(entries_view(old(v)@), k@, a),
        entries_wf(entries_view(final(v)@)),
{
    let ghost s = entries_view(v@);
    proof {
        lemma_merge_wf(s, k@, a);
    }
    let kc = chars_of(k);
    let mut i: usize = 0;
    while i < v.len() && str_lt(v[i].0.as_str(), k)
        invariant
            i <= v@.len(),
            s == entries_view(v@),
            kc@ == k@,
            forall|j: int| 0 <= j < i ==> seq_lt(#[trigger] s[j].0, k@),
        decreases v@.len() - i,
    {
        i = i + 1;
    }
    proof {
        lemma_merge_skip(s, k@, a, i as int);
    }
    let ghost t = s.skip(i as int);
    if i < v.len() && chars_eq(chars_of(v[i].0.as_str()).as_slice(), kc.as_slice()) {
        let old_assets = v[i].1;
        assert(t[0].0 == k@);
        let merged = CompletedAssets {
            symbol: old_assets.symbol || a.symbol,
            footprint: old_assets.footprint || a.footprint,
            model_3d: old_assets.model_3d || a.model_3d,
        };
        let key = k.to_owned();
        v.set(i, (key, merged));
        assert(entries_view(v@) =~= s.take(i as int) + (seq![(k@, union(t[0].1, a))] + t.skip(1)));
    } else {
        if i < v.len() {
            proof {
                assert(t[0].0 != k@);
                assert(!seq_lt(t[0].0, k@));
                lemma_seq_lt_total(t[0].0, k@);
            }
        }
        let key = k.to_owned();
        v.insert(i, (key, a));
        assert(entries_view(v@) =~= s.take(i as int) + (seq![(k@, a)] + t));
    }
}

/// The checkpoint entries after reading the given trimmed, non-empty lines in order.
pub open spec fn loaded_from(ls: Seq<Seq<char>>) -> Seq<Entry>
    decreases ls.len(),
{
    if ls.len() == 0 {
        Seq::empty()
    } else {
        let p = parsed_line(ls.last());
        merge_entry(loaded_from(ls.drop_last()), p.0, p.1)
    }
}

/// The trimmed, non-empty lines of a checkpoint file.
pub open spec fn checkpoint_lines(content: Seq<char>) -> Seq<Seq<char>> {
    lines(content).map_values(|l: Seq<char>| trim(l)).filter(|l: Seq<char>| l.len() > 0)
}

/// The entries that a checkpoint file's text records.
pub open spec fn loaded(content: Seq<char>) -> Seq<Entry> {
    loaded_from(checkpoint_lines(content))
}

/// The text of a checkpoint file: one `id<TAB>letters` line per entry, in key order.
pub open spec fn rendered(s: Seq<Entry>) -> Seq<char>
    decreases s.len(),
{
    if s.len() == 0 {
        Seq::empty()
    } else {
        rendered(s.drop_last()) + s.last().0 + seq!['\t'] + encoded(s.last().1) + seq!['\n']
    }
}

/// The checkpoint of an export folder: per part number, which assets are done.
pub struct CheckpointManager {
    path: String,
    completed: Vec<(String, CompletedAssets)>,
}

impl CheckpointManager {
    pub closed spec fn entries(&self) -> Seq<Entry> {
        entries_view(self.completed@)
    }

    pub closed spec fn path_spec(&self) -> Seq<char> {
        self.path@
    }

    pub closed spec fn wf(&self) -> bool {
        entries_wf(self.entries())
    }

    /// The checkpoint kept in file `path`, given the file's text, or `None` when there is
    /// no such file yet.
    pub fn load(path: &str, content: Option<&str>) -> (r: Self)
        ensures
            r.wf(),
            r.path_spec() == path@,
            r.entries() == match content {
                Some(c) => loaded(c@),
                None => Seq::empty(),
            },
    {
        let mut completed: Vec<(String, CompletedAssets)> = Vec::new();
        match content {
            None => {},
            Some(c) => {
                let cs = chars_of(c);
                let ls = lines_of(cs.as_slice());
                let ghost lv = lines(c@);
                let ghost tl = lv.map_values(|l: Seq<char>| trim(l));
                let ghost wanted = tl.filter(|l: Seq<char>| l.len() > 0);
                let ghost mut used: Seq<Seq<char>> = Seq::empty();
                let mut k: usize = 0;
                while k < ls.len()
                    invariant
                        k <= ls@.len(),
                        ls@.len() == lv.len(),
                        forall|j: int| 0 <= j < ls@.len() ==> (#[trigger] ls@[j])@ == lv[j],
                        tl == lv.map_values(|l: Seq<char>| trim(l)),
                        used == tl.take(k as int).filter(|l: Seq<char>| l.len() > 0),
                        entries_view(completed@) == loaded_from(used),
                        entries_wf(entries_view(completed@)),
                    decreases ls@.len() - k,
                {
                    proof {
                        reveal(Seq::filter);
                        assert(tl.take(k + 1).drop_last() =~= tl.take(k as int));
                    }
                    let t = trim_chars(ls[k].as_slice());
                    assert(t@ == tl[k as int]);
                    if t.len() > 0 {
                        let line = string_from(t.as_slice());
                        let (id, assets) = parse_checkpoint_line(line.as_str());
                        proof {
                            crate::checkpoint::lemma_parsed_line_assets(t@);
                        }
                        merge_into(&mut completed, id.as_str(), assets);
                        proof {
                            used = used.push(t@);
                            assert(used.drop_last() =~= tl.take(k as int).filter(|l: Seq<char>| l.len() > 0));
                        }
                    }
                    k = k + 1;
                }
                assert(tl.take(ls@.len() as int) =~= tl);
            },
        }
        CheckpointManager { path: path.to_owned(), completed }
    }

    /// Where the checkpoint is kept.
    pub fn path(&self) -> (r: &String)
        ensures
            r@ == self.path_spec(),
    {
        &self.path
    }

    /// Every part number recorded, with its finished assets, in key order.
    pub fn completed_assets(&self) -> (r: Vec<(String, CompletedAssets)>)
        ensures
            entries_view(r@) == self.entries(),
    {
        let mut out: Vec<(String, CompletedAssets)> = Vec::new();
        let mut k: usize = 0;
        while k < self.completed.len()
            invariant
                k <= self.completed@.len(),
                entries_view(out@) == entries_view(self.completed@).take(k as int),
            decreases self.completed@.len() - k,
        {
            let key = self.completed[k].0.clone();
            assert(key@ == self.completed@[k as int].0@);
            let ghost prev = entries_view(out@);
            out.push((key, self.completed[k].1));
            assert(entries_view(out@) =~= prev.push(entries_view(self.completed@)[k as int]));
            assert(entries_view(out@) =~= entries_view(self.completed@).take(k + 1));
            k = k + 1;
        }
        assert(entries_view(self.completed@).take(self.completed@.len() as int) =~= entries_view(
            self.completed@,
        ));
        out
    }

    /// The text of the checkpoint file.
    pub fn render(&self) -> (r: String)
        ensures
            r@ == rendered(self.entries()),
    {
        let mut out: Vec<char> = Vec::new();
        let mut k: usize = 0;
        let ghost s = self.entries();
        while k < self.completed.len()
            invariant
                k <= self.completed@.len(),
                s == entries_view(self.completed@),
                out@ == rendered(s.take(k as int)),
            decreases self.completed@.len() - k,
        {
            extend_str(&mut out, self.completed[k].0.as_str());
            out.push('\t');
            let e = self.completed[k].1.encode();
            extend_str(&mut out, e.as_str());
            out.push('\n');
            assert(s.take(k + 1).drop_last() =~= s.take(k as int));
            k = k + 1;
        }
        assert(s.take(self.completed@.len() as int) =~= s);
        string_from(out.as_slice())
    }

    /// Records that assets `assets` are done for each of `ids`, and gives the new file text
    /// to write; `None` when there is nothing to record.
    pub fn record_completed_ids(&mut self, ids: &[String], assets: CompletedAssets) -> (r: Option<String>)
        requires
            old(self).wf(),
        ensures
            final(self).wf(),
            final(self).path_spec() == old(self).path_spec(),
            (ids.len() == 0 || assets == no_assets()) ==> r is None && final(self).entries() == old(self).entries(),
            !(ids.len() == 0 || assets == no_assets()) ==> {
                &&& final(self).entries() == merge_all(
                    old(self).entries(),
                    ids@.map_values(|s: String| s@),
                    assets,
                )
                &&& r matches Some(t) && t@ == rendered(final(self).entries())
            },
    {
        if ids.len() == 0 || (!assets.symbol && !assets.footprint && !assets.model_3d) {
            return None;
        }
        let ghost start = self.entries();
        let ghost iv = ids@.map_values(|s: String| s@);
        let mut k: usize = 0;
        while k < ids.len()
            invariant
                k <= ids.len(),
                iv == ids@.map_values(|s: String| s@),
                assets != no_assets(),
                entries_wf(entries_view(self.completed@)),
                entries_view(self.completed@) == merge_all(start, iv.take(k as int), assets),
                self.path@ == old(self).path@,
            decreases ids.len() - k,
        {
            merge_into(&mut self.completed, ids[k].as_str(), assets);
            assert(iv.take(k + 1).drop_last() =~= iv.take(k as int));
            k = k + 1;
        }
        assert(iv.take(ids.len() as int) =~= iv);
        Some(self.render())
    }
}

/// `s` after recording assets `a` for each part number of `ids` in turn.
pub open spec fn merge_all(s: Seq<Entry>, ids: Seq<Seq<char>>, a: CompletedAssets) -> Seq<Entry>
    decreases ids.len(),
{
    if ids.len() == 0 {
        s
    } else {
        merge_entry(merge_all(s, ids.drop_last(), a), ids.last(), a)
    }
}

/// A parsed line never records an empty set of assets.
pub proof fn lemma_parsed_line_assets(line: Seq<char>)
    ensures
        parsed_line(line).1 != no_assets(),
{
}


/// The line written for one entry.
pub open spec fn line_of(e: Entry) -> Seq<char> {
    e.0 + seq!['\t'] + encoded(e.1)
}

/// A part number that survives being written to a line and read back: not empty, no tab or
/// line break in it, and no whitespace at either end.
pub open spec fn clean_key(k: Seq<char>) -> bool {
    &&& k.len() > 0
    &&& !crate::text::is_ws(k[0])
    &&& !crate::text::is_ws(k.last())
    &&& !k.contains('\t')
    &&& !k.contains('\n')
}

proof fn lemma_split_prefix_agree(s: Seq<char>, t: Seq<char>, sep: char, n: int)
    requires
        0 <= n <= s.len(),
        n <= t.len(),
        s.take(n) == t.take(n),
    ensures
        crate::text::split_prefix(s, sep, n) == crate::text::split_prefix(t, sep, n),
    decreases n,
{
    if n > 0 {
        assert(s.take(n - 1) =~= s.take(n).take(n - 1));
        assert(t.take(n - 1) =~= t.take(n).take(n - 1));
        assert(s[n - 1] == s.take(n)[n - 1]);
        assert(t[n - 1] == t.take(n)[n - 1]);
        lemma_split_prefix_agree(s, t, sep, n - 1);
    }
}

/// Splitting `u + l + "\n"` up to `j` characters into `l`.
proof fn lemma_split_partial_line(u: Seq<char>, l: Seq<char>, d: Seq<Seq<char>>, j: int)
    requires
        0 <= j <= l.len(),
        !l.contains('\n'),
        crate::text::split_prefix(u + l + seq!['\n'], '\n', u.len() as int) == d.push(Seq::<char>::empty()),
    ensures
        crate::text::split_prefix(u + l + seq!['\n'], '\n', u.len() + j) == d.push(l.take(j)),
    decreases j,
{
    let w = u + l + seq!['\n'];
    if j == 0 {
        assert(l.take(0) =~= Seq::<char>::empty());
    } else {
        lemma_split_partial_line(u, l, d, j - 1);
        assert(w[u.len() + j - 1] == l[j - 1]);
        if l[j - 1] == '\n' {
            assert(l.contains('\n'));
        }
        assert(l.take(j) =~= l.take(j - 1).push(l[j - 1]));
        assert(d.push(l.take(j - 1)).update(d.len() as int, l.take(j - 1).push(l[j - 1])) =~= d.push(l.take(j)));
    }
}

/// Splitting `u + l + "\n"` at line breaks, for `u` empty or ending in a line break and
/// `l` free of them: the pieces of `u` but its empty last one, then `l` and an empty piece.
proof fn lemma_split_append_line(u: Seq<char>, l: Seq<char>)
    requires
        u.len() == 0 || u.last() == '\n',
        !l.contains('\n'),
    ensures
        split_on(u, '\n').len() >= 1,
        split_on(u, '\n').last().len() == 0,
        split_on(u + l + seq!['\n'], '\n') == split_on(u, '\n').drop_last().push(l).push(
            Seq::<char>::empty(),
        ),
{
    let w = u + l + seq!['\n'];
    let d = split_on(u, '\n').drop_last();
    lemma_split_prefix_nonempty(u, '\n', u.len() as int);
    if u.len() > 0 {
        lemma_split_prefix_nonempty(u, '\n', u.len() - 1);
    }
    assert(split_on(u, '\n') =~= d.push(Seq::<char>::empty()));
    assert(w.take(u.len() as int) =~= u.take(u.len() as int));
    lemma_split_prefix_agree(w, u, '\n', u.len() as int);
    assert(u.take(u.len() as int) =~= u);
    lemma_split_partial_line(u, l, d, l.len() as int);
    assert(l.take(l.len() as int) =~= l);
    assert(w[u.len() + l.len() as int] == '\n');
    assert(w.len() == u.len() + l.len() + 1);
}

proof fn lemma_rendered_ends(s: Seq<Entry>)
    ensures
        rendered(s).len() == 0 || rendered(s).last() == '\n',
{
}

/// The lines of a rendered checkpoint are the entries' lines.
proof fn lemma_rendered_lines(s: Seq<Entry>)
    requires
        forall|i: int| 0 <= i < s.len() ==> clean_key(#[trigger] s[i].0) && s[i].1 != no_assets(),
    ensures
        lines(rendered(s)) == s.map_values(|e: Entry| line_of(e)),
    decreases s.len(),
{
    if s.len() == 0 {
        assert(split_on(Seq::<char>::empty(), '\n') =~= seq![Seq::<char>::empty()]);
        assert(lines(rendered(s)) =~= s.map_values(|e: Entry| line_of(e)));
    } else {
        let t = s.drop_last();
        assert forall|i: int| 0 <= i < t.len() implies clean_key(#[trigger] t[i].0) && t[i].1
            != no_assets() by {
            assert(t[i] == s[i]);
        }
        lemma_rendered_lines(t);
        let u = rendered(t);
        let e = s.last();
        let l = line_of(e);
        assert(clean_key(s[s.len() - 1].0));
        assert(!l.contains('\n')) by {
            if l.contains('\n') {
                let i = choose|i: int| 0 <= i < l.len() && l[i] == '\n';
                if i < e.0.len() {
                    assert(e.0[i] == '\n');
                    assert(e.0.contains('\n'));
                } else if i > e.0.len() {
                    assert(encoded(e.1)[i - e.0.len() - 1] == '\n');
                }
            }
        }
        lemma_rendered_ends(t);
        lemma_split_append_line(u, l);
        assert(rendered(s) == u + l + seq!['\n']);
        let parts = split_on(rendered(s), '\n');
        let pu = split_on(u, '\n');
        assert(l.len() > 0 && l.last() != '\r') by {
            assert(e.1 != no_assets());
        }
        assert(lines(rendered(s)) =~= lines(u).push(l)) by {
            assert(parts.take(parts.len() - 1) =~= pu.drop_last().push(l));
            assert(pu.take(pu.len() - 1) =~= pu.drop_last());
        }
        assert(s.map_values(|e: Entry| line_of(e)) =~= t.map_values(|e: Entry| line_of(e)).push(l));
    }
}

/// With every key of `s` before `k`, recording `k` appends it.
proof fn lemma_merge_append(s: Seq<Entry>, k: Seq<char>, a: CompletedAssets)
    requires
        forall|i: int| 0 <= i < s.len() ==> seq_lt(#[trigger] s[i].0, k),
    ensures
        merge_entry(s, k, a) == s.push((k, a)),
    decreases s.len(),
{
    if s.len() > 0 {
        lemma_seq_lt_irreflexive(k);
        lemma_seq_lt_asym(s[0].0, k);
        let t = s.skip(1);
        assert forall|i: int| 0 <= i < t.len() implies seq_lt(#[trigger] t[i].0, k) by {
            assert(t[i] == s[i + 1]);
        }
        lemma_merge_append(t, k, a);
        assert(s =~= seq![s[0]] + t);
        assert(seq![s[0]] + t.push((k, a)) =~= s.push((k, a)));
    }
}

/// A clean entry's line reads back as the entry.
proof fn lemma_parse_line_of(e: Entry)
    requires
        clean_key(e.0),
        e.1 != no_assets(),
    ensures
        parsed_line(line_of(e)) == e,
        trim(line_of(e)) == line_of(e),
        line_of(e).len() > 0,
{
    let l = line_of(e);
    let k = e.0;
    crate::text::lemma_split_first_piece(k, '\t');
    if split_on(k, '\t').len() >= 2 {
        let f = split_on(k, '\t')[0];
        assert(k[f.len() as int] == '\t');
        assert(k.contains('\t'));
    }
    assert(l.take(k.len() as int) =~= k.take(k.len() as int));
    lemma_split_prefix_agree(l, k, '\t', k.len() as int);
    assert(k.take(k.len() as int) =~= k);
    lemma_split_prefix_nonempty(k, '\t', k.len() as int);
    assert(l[k.len() as int] == '\t');
    lemma_split_keeps_first(l, '\t', k.len() + 1int, l.len() as int);
    assert(crate::text::split_prefix(l, '\t', k.len() + 1int)[0] == k);
    assert(l.skip(k.len() + 1int) =~= encoded(e.1));
    law_decode_inverts_encode(e.1);
    assert(trim(k) == k) by {
        assert(crate::text::trim_left(k) == k);
    }
    assert(l.last() == encoded(e.1).last());
    assert(!crate::text::is_ws(l.last()));
    assert(l[0] == k[0]);
    assert(crate::text::trim_left(l) == l);
}

/// Once a line has two pieces, its first piece no longer changes.
proof fn lemma_split_keeps_first(s: Seq<char>, sep: char, m: int, n: int)
    requires
        0 <= m <= n <= s.len(),
        crate::text::split_prefix(s, sep, m).len() >= 2 || (m > 0 && s[m - 1] == sep),
    ensures
        crate::text::split_prefix(s, sep, n).len() >= 2,
        crate::text::split_prefix(s, sep, n)[0] == crate::text::split_prefix(s, sep, if m > 0 && s[m - 1] == sep && crate::text::split_prefix(s, sep, m).len() < 2 { m - 1 } else { m })[0],
    decreases n - m,
{
    lemma_split_prefix_nonempty(s, sep, n);
    if m > 0 {
        lemma_split_prefix_nonempty(s, sep, m - 1);
    }
    if n > m {
        lemma_split_keeps_first(s, sep, m, n - 1);
        lemma_split_prefix_nonempty(s, sep, n - 1);
    }
}

/// Reading the first lines of a clean rendered checkpoint gives back those entries.
proof fn lemma_loaded_from_lines(s: Seq<Entry>)
    requires
        entries_wf(s),
        forall|i: int| 0 <= i < s.len() ==> clean_key(#[trigger] s[i].0),
    ensures
        loaded_from(s.map_values(|e: Entry| line_of(e))) == s,
    decreases s.len(),
{
    if s.len() > 0 {
        let t = s.drop_last();
        assert(entries_wf(t)) by {
            assert forall|i: int, j: int| 0 <= i < j < t.len() implies seq_lt(#[trigger] t[i].0, #[trigger] t[j].0) by {
                assert(t[i] == s[i]);
                assert(t[j] == s[j]);
            }
            assert forall|i: int| 0 <= i < t.len() implies (#[trigger] t[i]).1 != no_assets() by {
                assert(t[i] == s[i]);
            }
        }
        assert forall|i: int| 0 <= i < t.len() implies clean_key(#[trigger] t[i].0) by {
            assert(t[i] == s[i]);
        }
        lemma_loaded_from_lines(t);
        let ls = s.map_values(|e: Entry| line_of(e));
        assert(ls.drop_last() =~= t.map_values(|e: Entry| line_of(e)));
        let e = s.last();
        assert(clean_key(s[s.len() - 1].0));
        assert(s[s.len() - 1].1 != no_assets());
        lemma_parse_line_of(e);
        assert forall|i: int| 0 <= i < t.len() implies seq_lt(#[trigger] t[i].0, e.0) by {
            assert(t[i] == s[i]);
            assert(seq_lt(s[i].0, s[s.len() - 1].0));
        }
        lemma_merge_append(t, e.0, e.1);
        assert(t.push(e) =~= s);
    }
}

/// Law: a checkpoint file written from well-formed entries with clean part numbers reads
/// back as the same entries.
pub proof fn law_checkpoint_round_trip(s: Seq<Entry>)
    requires
        entries_wf(s),
        forall|i: int| 0 <= i < s.len() ==> clean_key(#[trigger] s[i].0),
    ensures
        loaded(rendered(s)) == s,
{
    lemma_rendered_lines(s);
    let ls = s.map_values(|e: Entry| line_of(e));
    assert forall|i: int| 0 <= i < ls.len() implies trim(#[trigger] ls[i]) == ls[i] && ls[i].len() > 0 by {
        lemma_parse_line_of(s[i]);
    }
    let tl = ls.map_values(|l: Seq<char>| trim(l));
    assert(tl =~= ls);
    lemma_filter_all_nonempty(ls);
    lemma_loaded_from_lines(s);
}

/// A well-formed checkpoint's entries are well formed: keys strictly in order, and no
/// entry with an empty set of assets.
pub proof fn lemma_checkpoint_wf(m: &CheckpointManager)
    requires
        m.wf(),
    ensures
        entries_wf(m.entries()),
{
}

/// Every part number of `s` is clean (see `clean_key`).
pub open spec fn clean_keys(s: Seq<Entry>) -> bool {
    forall|i: int| 0 <= i < s.len() ==> clean_key(#[trigger] s[i].0)
}

proof fn lemma_merge_all_clean(s: Seq<Entry>, ids: Seq<Seq<char>>, a: CompletedAssets)
    requires
        entries_wf(s),
        a != no_assets(),
        clean_keys(s),
        forall|i: int| 0 <= i < ids.len() ==> clean_key(#[trigger] ids[i]),
    ensures
        entries_wf(merge_all(s, ids, a)),
        clean_keys(merge_all(s, ids, a)),
    decreases ids.len(),
{
    if ids.len() > 0 {
        let prev = merge_all(s, ids.drop_last(), a);
        assert forall|i: int| 0 <= i < ids.drop_last().len() implies clean_key(#[trigger] ids.drop_last()[i]) by {
            assert(ids.drop_last()[i] == ids[i]);
        }
        lemma_merge_all_clean(s, ids.drop_last(), a);
        lemma_merge_wf(prev, ids.last(), a);
        let m = merge_entry(prev, ids.last(), a);
        assert(clean_key(ids[ids.len() - 1]));
        assert forall|i: int| 0 <= i < m.len() implies clean_key(#[trigger] m[i].0) by {
            if m[i].0 != ids.last() {
                if prev.contains(m[i]) {
                    let j = choose|j: int| 0 <= j < prev.len() && prev[j] == m[i];
                    assert(clean_key(prev[j].0));
                } else {
                    let j = choose|j: int| 0 <= j < prev.len() && prev[j].0 == m[i].0;
                    assert(clean_key(prev[j].0));
                }
            }
        }
    }
}

/// Law: once assets `a` are recorded for part numbers `ids`, the file written reads back as
/// the recorded entries, provided the part numbers already kept and those recorded are
/// clean (see `clean_key`).
pub proof fn law_recorded_checkpoint_reads_back(s: Seq<Entry>, ids: Seq<Seq<char>>, a: CompletedAssets)
    requires
        entries_wf(s),
        a != no_assets(),
        clean_keys(s),
        forall|i: int| 0 <= i < ids.len() ==> clean_key(#[trigger] ids[i]),
    ensures
        loaded(rendered(merge_all(s, ids, a))) == merge_all(s, ids, a),
{
    lemma_merge_all_clean(s, ids, a);
    law_checkpoint_round_trip(merge_all(s, ids, a));
}

/// Entries `s` hold an entry for `id` with every asset of `a`.
pub open spec fn records_assets(s: Seq<Entry>, id: Seq<char>, a: CompletedAssets) -> bool {
    exists|j: int| 0 <= j < s.len() && s[j].0 == id && #[trigger] covers_spec(s[j].1, a)
}

/// Law: once assets `a` are recorded for part numbers `ids`, the checkpoint holds an entry
/// for each of them with every asset of `a`.
pub proof fn law_recorded_ids_covered(s: Seq<Entry>, ids: Seq<Seq<char>>, a: CompletedAssets)
    requires
        entries_wf(s),
        a != no_assets(),
    ensures
        forall|i: int| 0 <= i < ids.len() ==> records_assets(merge_all(s, ids, a), #[trigger] ids[i], a),
{
    let m = merge_all(s, ids, a);
    crate::runner::law_recorded_ids_cover_assets(s, ids, a);
    assert forall|i: int| 0 <= i < ids.len() implies records_assets(m, #[trigger] ids[i], a) by {
        assert(ids.contains(ids[i]));
        assert(crate::runner::already_done(m, ids[i], a));
        crate::runner::lemma_lookup_found(m, ids[i]);
        let b = crate::runner::lookup(m, ids[i])->Some_0;
        let j = choose|j: int| 0 <= j < m.len() && m[j].0 == ids[i] && #[trigger] m[j].1 == b;
        assert(covers_spec(m[j].1, a));
    }
}

proof fn lemma_filter_all_nonempty(ls: Seq<Seq<char>>)
    requires
        forall|i: int| 0 <= i < ls.len() ==> (#[trigger] ls[i]).len() > 0,
    ensures
        ls.filter(|l: Seq<char>| l.len() > 0) == ls,
    decreases ls.len(),
{
    reveal(Seq::filter);
    if ls.len() > 0 {
        let t = ls.drop_last();
        assert forall|i: int| 0 <= i < t.len() implies (#[trigger] t[i]).len() > 0 by {
            assert(t[i] == ls[i]);
        }
        lemma_filter_all_nonempty(t);
        assert(t.push(ls.last()) =~= ls);
    }
}

} // verus!

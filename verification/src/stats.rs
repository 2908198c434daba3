//! Statistics of a project model: counts, the symbols most called and calling most,
//! the symbols that talk to outside systems, and the pairs of modules that import each
//! other.

use vstd::prelude::*;
use vstd::relations::{sorted_by, total_ordering};
use crate::model::{Edge, EdgeView, ProjectModel, Symbol, SymbolKind};
use crate::text::{chars_of, seq_lt, seq_lt_exec, str_eq};

verus! {

/// A symbol in a top list: its qualified name, the measure it is ranked by, and whether
/// it is critical.
#[derive(Debug)]
pub struct RankedSymbol {
    pub qualname: String,
    pub value: usize,
    pub is_critical: bool,
}

/// What the statistics report shows of a model.
#[derive(Debug)]
pub struct ProjectStats {
    pub files: usize,
    pub modules: usize,
    pub symbols: usize,
    pub import_edges: usize,
    pub call_edges: usize,
    pub classes: usize,
    pub functions: usize,
    pub async_functions: usize,
    pub methods: usize,
    pub top_fan_in: Vec<RankedSymbol>,
    pub top_fan_out: Vec<RankedSymbol>,
    pub http: Vec<String>,
    pub db: Vec<String>,
    pub queue: Vec<String>,
    pub mutual_imports: Vec<(String, String)>,
}

// ---------------------------------------------------------------- ranking
/// `a` comes no later than `b` when ranking by `keys`: a larger key first, and among
/// equal keys the earlier index first.
pub open spec fn rank_leq(keys: Seq<usize>) -> spec_fn(usize, usize) -> bool {
    |a: usize, b: usize| keys[a as int] > keys[b as int] || (keys[a as int] == keys[b as int] && a <= b)
}

/// The indices `0..n`.
pub open spec fn index_seq(n: nat) -> Seq<usize> {
    Seq::new(n, |k: int| k as usize)
}

/// `r` lists every index of `keys` once, ordered by `rank_leq`.
pub open spec fn is_ranking(keys: Seq<usize>, r: Seq<usize>) -> bool {
    &&& r.to_multiset() == index_seq(keys.len()).to_multiset()
    &&& sorted_by(r, rank_leq(keys))
}

/// The indices of `keys` ordered by key, largest first, earlier index first among
/// equal keys (the order of a stable sort by descending key).
pub open spec fn ranking(keys: Seq<usize>) -> Seq<usize> {
    choose|r: Seq<usize>| is_ranking(keys, r)
}

/// `rank_leq` is a total order.
pub proof fn lemma_rank_leq_total(keys: Seq<usize>)
    ensures
        total_ordering(rank_leq(keys)),
{
    let r = rank_leq(keys);
    assert forall|x: usize, y: usize, z: usize| #[trigger] r(x, y) && #[trigger] r(y, z) implies r(x, z) by {}
    assert forall|x: usize, y: usize| #[trigger] r(x, y) && #[trigger] r(y, x) implies x == y by {}
    assert forall|x: usize, y: usize| #[trigger] r(x, y) || #[trigger] r(y, x) by {}
    assert forall|x: usize| #[trigger] r(x, x) by {}
}

/// There is one ranking of the indices of `keys`.
pub proof fn lemma_ranking_unique(keys: Seq<usize>, r1: Seq<usize>, r2: Seq<usize>)
    requires
        is_ranking(keys, r1),
        is_ranking(keys, r2),
    ensures
        r1 == r2,
{
    lemma_rank_leq_total(keys);
    vstd::seq_lib::lemma_sorted_unique(r1, r2, rank_leq(keys));
}

/// The indices of `keys` ordered by key, largest first, earlier index first among equal
/// keys.
pub fn rank_desc(keys: &Vec<usize>) -> (r: Vec<usize>)
    ensures
        r@ == ranking(keys@),
        is_ranking(keys@, r@),
{
    broadcast use vstd::seq_lib::group_to_multiset_ensures;

    let n = keys.len();
    let mut r: Vec<usize> = Vec::new();
    let mut i: usize = 0;
    assert(index_seq(0) =~= Seq::<usize>::empty());
    while i < n
        invariant
            n == keys@.len(),
            i <= n,
            r@.len() == i,
            forall|a: int| 0 <= a < r@.len() ==> r@[a] < i,
            r@.to_multiset() == index_seq(i as nat).to_multiset(),
            sorted_by(r@, rank_leq(keys@)),
        decreases n - i,
    {
        let mut p: usize = 0;
        while p < r.len() && keys[r[p]] >= keys[i]
            invariant
                n == keys@.len(),
                i < n,
                p <= r@.len(),
                forall|a: int| 0 <= a < r@.len() ==> r@[a] < i,
                forall|q: int| 0 <= q < p ==> keys@[r@[q] as int] >= keys@[i as int],
            decreases r@.len() - p,
        {
            p = p + 1;
        }
        let ghost old_r = r@;
        r.insert(p, i);
        proof {
            let f = rank_leq(keys@);
            assert(r@ == old_r.insert(p as int, i));
            vstd::seq_lib::to_multiset_insert(old_r, p as int, i);
            assert(index_seq((i + 1) as nat) =~= index_seq(i as nat).push(i));
            index_seq(i as nat).to_multiset_ensures();
            assert(index_seq(i as nat).push(i).to_multiset() =~= index_seq(i as nat).to_multiset().insert(i));
            assert(index_seq((i + 1) as nat).to_multiset() == index_seq(i as nat).to_multiset().insert(i));
            assert forall|a: int, b: int| 0 <= a < b < r@.len() implies #[trigger] f(r@[a], r@[b]) by {
                if b < p {
                    assert(f(old_r[a], old_r[b]));
                } else if b == p {
                    assert(r@[a] == old_r[a]);
                } else if a < p {
                    assert(r@[b] == old_r[b - 1]);
                    assert(keys@[old_r[p as int] as int] < keys@[i as int]);
                    assert(f(old_r[p as int], old_r[b - 1]));
                } else if a == p {
                    assert(r@[b] == old_r[b - 1]);
                    assert(keys@[old_r[p as int] as int] < keys@[i as int]);
                    if b - 1 > p {
                        assert(f(old_r[p as int], old_r[b - 1]));
                    }
                } else {
                    assert(f(old_r[a - 1], old_r[b - 1]));
                }
            }
        }
        i = i + 1;
    }
    proof {
        assert(is_ranking(keys@, r@));
        let c = ranking(keys@);
        lemma_ranking_unique(keys@, r@, c);
    }
    r
}

// ---------------------------------------------------------------- specification
/// The number of symbols of kind `k`.
pub open spec fn count_kind(vals: Seq<Symbol>, k: SymbolKind) -> nat
    decreases vals.len(),
{
    if vals.len() == 0 {
        0
    } else {
        count_kind(vals.drop_last(), k) + if vals.last().kind == k {
            1nat
        } else {
            0nat
        }
    }
}

/// Every symbol has exactly one of the four kinds, so the numbers of classes, functions,
/// async functions and methods add up to the number of symbols.
pub proof fn lemma_kind_counts_sum(vals: Seq<Symbol>)
    ensures
        count_kind(vals, SymbolKind::Class) + count_kind(vals, SymbolKind::Function) + count_kind(
            vals,
            SymbolKind::AsyncFunction,
        ) + count_kind(vals, SymbolKind::Method) == vals.len(),
    decreases vals.len(),
{
    if vals.len() > 0 {
        lemma_kind_counts_sum(vals.drop_last());
    }
}

/// The fan-in of each symbol.
pub open spec fn fan_in_keys(vals: Seq<Symbol>) -> Seq<usize> {
    vals.map_values(|s: Symbol| s.metrics.fan_in)
}

/// The fan-out of each symbol.
pub open spec fn fan_out_keys(vals: Seq<Symbol>) -> Seq<usize> {
    vals.map_values(|s: Symbol| s.metrics.fan_out)
}

/// The length of the run of positive keys at the start of `r` from position `t` on,
/// at most 10 positions in all.
pub open spec fn positive_run(keys: Seq<usize>, r: Seq<usize>, t: int) -> int
    decreases 10 - t,
{
    if 0 <= t < 10 && t < r.len() && keys[r[t] as int] > 0 {
        positive_run(keys, r, t + 1)
    } else {
        t
    }
}

/// A top-10 list: the highest-ranked symbols with a positive key, at most ten.
pub open spec fn top_ten(vals: Seq<Symbol>, keys: Seq<usize>) -> Seq<(Seq<char>, usize, bool)> {
    let r = ranking(keys);
    r.take(positive_run(keys, r, 0)).map_values(
        |i: usize| (vals[i as int].qualname@, keys[i as int], vals[i as int].metrics.is_critical),
    )
}

/// A ranked symbol as a value.
pub open spec fn ranked_view(s: RankedSymbol) -> (Seq<char>, usize, bool) {
    (s.qualname@, s.value, s.is_critical)
}

/// Which outside system a flag names.
pub enum Integration {
    Http,
    Db,
    Queue,
}

/// The symbol has the flag of `which`.
pub open spec fn has_flag(s: Symbol, which: Integration) -> bool {
    match which {
        Integration::Http => s.integrations_flags.http,
        Integration::Db => s.integrations_flags.db,
        Integration::Queue => s.integrations_flags.queue,
    }
}

/// The qualified names of the symbols with the flag of `which`, in order.
pub open spec fn flagged_names(vals: Seq<Symbol>, which: Integration) -> Seq<Seq<char>>
    decreases vals.len(),
{
    if vals.len() == 0 {
        Seq::empty()
    } else {
        let rest = flagged_names(vals.drop_last(), which);
        if has_flag(vals.last(), which) {
            rest.push(vals.last().qualname@)
        } else {
            rest
        }
    }
}

/// Some edge of `edges` goes back from the end of `e` to its start.
pub open spec fn has_reverse(edges: Seq<EdgeView>, e: EdgeView) -> bool {
    exists|j: int| 0 <= j < edges.len() && (#[trigger] edges[j]).from_id == e.to_id && edges[j].to_id == e.from_id
}

/// The pairs of modules that import each other, once per edge from the smaller id to
/// the larger one, in edge order.
pub open spec fn mutual_pairs(edges: Seq<EdgeView>, upto: int) -> Seq<(Seq<char>, Seq<char>)>
    decreases upto,
{
    if upto <= 0 || upto > edges.len() {
        Seq::empty()
    } else {
        let rest = mutual_pairs(edges, upto - 1);
        let e = edges[upto - 1];
        if has_reverse(edges, e) && seq_lt(e.from_id, e.to_id) {
            rest.push((e.from_id, e.to_id))
        } else {
            rest
        }
    }
}

// ---------------------------------------------------------------- execution
/// The fan-in (or fan-out) of each symbol of `model`.
fn metric_keys(model: &ProjectModel, fan_in: bool) -> (r: Vec<usize>)
    ensures
        r@ == if fan_in {
            fan_in_keys(model.symbols.vals())
        } else {
            fan_out_keys(model.symbols.vals())
        },
{
    let n = model.symbols.len();
    let mut r: Vec<usize> = Vec::new();
    let mut i: usize = 0;
    while i < n
        invariant
            n == model.symbols.vals().len(),
            n == model.symbols.keys().len(),
            i <= n,
            r@.len() == i,
            forall|j: int|
                0 <= j < i ==> r@[j] == if fan_in {
                    model.symbols.vals()[j].metrics.fan_in
                } else {
                    model.symbols.vals()[j].metrics.fan_out
                },
        decreases n - i,
    {
        let s = model.symbols.value_at(i);
        r.push(
            if fan_in {
                s.metrics.fan_in
            } else {
                s.metrics.fan_out
            },
        );
        i = i + 1;
    }
    proof {
        if fan_in {
            assert(r@ =~= fan_in_keys(model.symbols.vals()));
        } else {
            assert(r@ =~= fan_out_keys(model.symbols.vals()));
        }
    }
    r
}

/// The top-10 list of `model`'s symbols by `keys`.
fn top_list(model: &ProjectModel, keys: &Vec<usize>) -> (r: Vec<RankedSymbol>)
    requires
        keys@.len() == model.symbols.vals().len(),
    ensures
        r@.map_values(|s: RankedSymbol| ranked_view(s)) == top_ten(model.symbols.vals(), keys@),
{
    let order = rank_desc(keys);
    let ghost vals = model.symbols.vals();
    let ghost t = positive_run(keys@, order@, 0);
    let _ = model.symbols.len();
    proof {
        broadcast use vstd::seq_lib::group_to_multiset_ensures;
        let c = ranking(keys@);
        assert(is_ranking(keys@, order@));
        assert forall|a: int| 0 <= a < order@.len() implies (#[trigger] order@[a]) < keys@.len() by {
            assert(order@.to_multiset().count(order@[a]) > 0);
            assert(index_seq(keys@.len()).to_multiset().count(order@[a]) > 0);
            assert(index_seq(keys@.len()).contains(order@[a]));
        }
    }
    let mut r: Vec<RankedSymbol> = Vec::new();
    let mut i: usize = 0;
    while i < 10 && i < order.len() && keys[order[i]] > 0
        invariant
            order@ == ranking(keys@),
            keys@.len() == vals.len(),
            keys@.len() == model.symbols.keys().len(),
            vals == model.symbols.vals(),
            forall|a: int| 0 <= a < order@.len() ==> (#[trigger] order@[a]) < keys@.len(),
            i <= 10,
            i <= order@.len(),
            positive_run(keys@, order@, i as int) == t,
            r@.len() == i,
            forall|j: int|
                0 <= j < i ==> ranked_view(#[trigger] r@[j]) == (
                    vals[order@[j] as int].qualname@,
                    keys@[order@[j] as int],
                    vals[order@[j] as int].metrics.is_critical,
                ),
        decreases 10 - i,
    {
        let s = model.symbols.value_at(order[i]);
        r.push(RankedSymbol { qualname: s.qualname.clone(), value: keys[order[i]], is_critical: s.metrics.is_critical });
        i = i + 1;
    }
    assert(t == i);
    assert(r@.map_values(|s: RankedSymbol| ranked_view(s)) =~= top_ten(vals, keys@));
    r
}

/// The qualified names of the symbols of `model` with the flag of `which`.
fn flagged(model: &ProjectModel, which: Integration) -> (r: Vec<String>)
    ensures
        r.deep_view() == flagged_names(model.symbols.vals(), which),
{
    let n = model.symbols.len();
    let ghost vals = model.symbols.vals();
    let mut r: Vec<String> = Vec::new();
    let mut i: usize = 0;
    assert(vals.take(0) =~= Seq::<Symbol>::empty());
    while i < n
        invariant
            n == vals.len(),
            n == model.symbols.keys().len(),
            vals == model.symbols.vals(),
            i <= n,
            r.deep_view() == flagged_names(vals.take(i as int), which),
        decreases n - i,
    {
        let s = model.symbols.value_at(i);
        let hit = match which {
            Integration::Http => s.integrations_flags.http,
            Integration::Db => s.integrations_flags.db,
            Integration::Queue => s.integrations_flags.queue,
        };
        assert(vals.take(i + 1).drop_last() =~= vals.take(i as int));
        let ghost before = r.deep_view();
        if hit {
            r.push(s.qualname.clone());
            assert(r.deep_view() =~= before.push(s.qualname@));
        }
        i = i + 1;
    }
    assert(vals.take(n as int) =~= vals);
    r
}

/// The number of symbols of `model` of kind `k`.
fn kind_count(model: &ProjectModel, k: SymbolKind) -> (r: usize)
    ensures
        r == count_kind(model.symbols.vals(), k),
{
    let n = model.symbols.len();
    let ghost vals = model.symbols.vals();
    let mut c: usize = 0;
    let mut i: usize = 0;
    assert(vals.take(0) =~= Seq::<Symbol>::empty());
    while i < n
        invariant
            n == vals.len(),
            n == model.symbols.keys().len(),
            vals == model.symbols.vals(),
            i <= n,
            c == count_kind(vals.take(i as int), k),
            c <= i,
        decreases n - i,
    {
        assert(vals.take(i + 1).drop_last() =~= vals.take(i as int));
        if model.symbols.value_at(i).kind == k {
            c = c + 1;
        }
        i = i + 1;
    }
    assert(vals.take(n as int) =~= vals);
    c
}

/// Whether some edge of `edges` goes from `from` to `to`.
fn edge_exists(edges: &Vec<Edge>, from: &str, to: &str) -> (r: bool)
    ensures
        r == exists|j: int| 0 <= j < edges@.len() && (#[trigger] edges@[j]).from_id@ == from@ && edges@[j].to_id@ == to@,
{
    let n = edges.len();
    let mut j: usize = 0;
    while j < n
        invariant
            n == edges@.len(),
            j <= n,
            forall|q: int| 0 <= q < j ==> !((#[trigger] edges@[q]).from_id@ == from@ && edges@[q].to_id@ == to@),
        decreases n - j,
    {
        if str_eq(edges[j].from_id.as_str(), from) && str_eq(edges[j].to_id.as_str(), to) {
            return true;
        }
        j = j + 1;
    }
    false
}

/// The pairs of modules of `model` that import each other.
fn mutual_imports(model: &ProjectModel) -> (r: Vec<(String, String)>)
    ensures
        r@.map_values(|p: (String, String)| (p.0@, p.1@)) == mutual_pairs(
            model.edges.module_import_edges.deep_view(),
            model.edges.module_import_edges@.len() as int,
        ),
{
    let edges = &model.edges.module_import_edges;
    let ghost ev = edges.deep_view();
    let n = edges.len();
    let mut r: Vec<(String, String)> = Vec::new();
    let mut i: usize = 0;
    assert(r@.map_values(|p: (String, String)| (p.0@, p.1@)) =~= mutual_pairs(ev, 0));
    while i < n
        invariant
            n == edges@.len(),
            ev == edges.deep_view(),
            ev.len() == n,
            i <= n,
            r@.map_values(|p: (String, String)| (p.0@, p.1@)) == mutual_pairs(ev, i as int),
        decreases n - i,
    {
        let e = &edges[i];
        let back = edge_exists(edges, e.to_id.as_str(), e.from_id.as_str());
        let from = chars_of(e.from_id.as_str());
        let to = chars_of(e.to_id.as_str());
        let lt = seq_lt_exec(&from, &to);
        proof {
            assert(ev[i as int] == e.deep_view());
            if back {
                let j = choose|j: int| 0 <= j < edges@.len() && (#[trigger] edges@[j]).from_id@ == e.to_id@ && edges@[j].to_id@ == e.from_id@;
                assert(ev[j] == edges@[j].deep_view());
                assert(has_reverse(ev, ev[i as int]));
            }
            if has_reverse(ev, ev[i as int]) {
                let j = choose|j: int| 0 <= j < ev.len() && (#[trigger] ev[j]).from_id == ev[i as int].to_id && ev[j].to_id == ev[i as int].from_id;
                assert(ev[j] == edges@[j].deep_view());
            }
        }
        let ghost before = r@.map_values(|p: (String, String)| (p.0@, p.1@));
        if back && lt {
            r.push((e.from_id.clone(), e.to_id.clone()));
            assert(r@.map_values(|p: (String, String)| (p.0@, p.1@)) =~= before.push((e.from_id@, e.to_id@)));
        }
        i = i + 1;
    }
    r
}

/// The statistics of `model`.
pub fn project_stats(model: &ProjectModel) -> (r: ProjectStats)
    ensures
        r.files == model.files.keys().len(),
        r.modules == model.modules.keys().len(),
        r.symbols == model.symbols.keys().len(),
        r.import_edges == model.edges.module_import_edges@.len(),
        r.call_edges == model.edges.symbol_call_edges@.len(),
        r.classes == count_kind(model.symbols.vals(), SymbolKind::Class),
        r.functions == count_kind(model.symbols.vals(), SymbolKind::Function),
        r.async_functions == count_kind(model.symbols.vals(), SymbolKind::AsyncFunction),
        r.methods == count_kind(model.symbols.vals(), SymbolKind::Method),
        r.top_fan_in@.map_values(|s: RankedSymbol| ranked_view(s)) == top_ten(
            model.symbols.vals(),
            fan_in_keys(model.symbols.vals()),
        ),
        r.top_fan_out@.map_values(|s: RankedSymbol| ranked_view(s)) == top_ten(
            model.symbols.vals(),
            fan_out_keys(model.symbols.vals()),
        ),
        r.http.deep_view() == flagged_names(model.symbols.vals(), Integration::Http),
        r.db.deep_view() == flagged_names(model.symbols.vals(), Integration::Db),
        r.queue.deep_view() == flagged_names(model.symbols.vals(), Integration::Queue),
        r.mutual_imports@.map_values(|p: (String, String)| (p.0@, p.1@)) == mutual_pairs(
            model.edges.module_import_edges.deep_view(),
            model.edges.module_import_edges@.len() as int,
        ),
{
    let fan_in = metric_keys(model, true);
    let fan_out = metric_keys(model, false);
    ProjectStats {
        files: model.files.len(),
        modules: model.modules.len(),
        symbols: model.symbols.len(),
        import_edges: model.edges.module_import_edges.len(),
        call_edges: model.edges.symbol_call_edges.len(),
        classes: kind_count(model, SymbolKind::Class),
        functions: kind_count(model, SymbolKind::Function),
        async_functions: kind_count(model, SymbolKind::AsyncFunction),
        methods: kind_count(model, SymbolKind::Method),
        top_fan_in: top_list(model, &fan_in),
        top_fan_out: top_list(model, &fan_out),
        http: flagged(model, Integration::Http),
        db: flagged(model, Integration::Db),
        queue: flagged(model, Integration::Queue),
        mutual_imports: mutual_imports(model),
    }
}

/// The outside systems some symbol of `model` talks to, among `HTTP`, `DB` and
/// `Queue`, in that order.
pub fn integration_labels(model: &ProjectModel) -> (r: Vec<&'static str>)
    ensures
        r@.map_values(|s: &str| s@) == {
            let vals = model.symbols.vals();
            let a = if flagged_names(vals, Integration::Http).len() > 0 {
                seq!["HTTP"@]
            } else {
                Seq::empty()
            };
            let b = if flagged_names(vals, Integration::Db).len() > 0 {
                seq!["DB"@]
            } else {
                Seq::empty()
            };
            let c = if flagged_names(vals, Integration::Queue).len() > 0 {
                seq!["Queue"@]
            } else {
                Seq::empty()
            };
            a + b + c
        },
{
    let http = flagged(model, Integration::Http);
    let db = flagged(model, Integration::Db);
    let queue = flagged(model, Integration::Queue);
    let mut r: Vec<&'static str> = Vec::new();
    if http.len() > 0 {
        r.push("HTTP");
    }
    if db.len() > 0 {
        r.push("DB");
    }
    if queue.len() > 0 {
        r.push("Queue");
    }
    let ghost vals = model.symbols.vals();
    assert(r@.map_values(|s: &str| s@) =~= {
        let a = if flagged_names(vals, Integration::Http).len() > 0 {
            seq!["HTTP"@]
        } else {
            Seq::empty()
        };
        let b = if flagged_names(vals, Integration::Db).len() > 0 {
            seq!["DB"@]
        } else {
            Seq::empty()
        };
        let c = if flagged_names(vals, Integration::Queue).len() > 0 {
            seq!["Queue"@]
        } else {
            Seq::empty()
        };
        a + b + c
    });
    r
}

} // verus!

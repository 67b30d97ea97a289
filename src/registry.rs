//! The declarative section registry and the single left-to-right pass that matches it
//! against the rows of a report.
//!
//! A row is represented here by its leading text; it matches a section when that text
//! equals the section's pattern.
use vstd::prelude::*;

verus! {

/// The closed set of handlers that turn a block's rows into records.
#[derive(Clone, Copy, Debug, PartialEq, Eq)]
pub enum HandlerKind {
    Period,
    CashFlow,
    Trades,
    Assets,
}

/// An expected section of a report.
#[derive(Clone, Debug)]
pub struct Section {
    pub pattern: String,
    pub required: bool,
    pub handler: Option<HandlerKind>,
}

impl Section {
    /// An optional section without a handler.
    pub fn new(pattern: &str) -> (r: Section)
        ensures
            r.pattern@ == pattern@,
            !r.required,
            r.handler is None,
    {
        Section { pattern: pattern.to_string(), required: false, handler: None }
    }

    /// The same section, with `handler` attached.
    pub fn parser(self, handler: HandlerKind) -> (r: Section)
        ensures
            r.pattern@ == self.pattern@,
            r.required == self.required,
            r.handler == Some(handler),
    {
        Section { pattern: self.pattern, required: self.required, handler: Some(handler) }
    }

    /// The same section, marked as required.
    pub fn required(self) -> (r: Section)
        ensures
            r.pattern@ == self.pattern@,
            r.required,
            r.handler == self.handler,
    {
        Section { pattern: self.pattern, required: true, handler: self.handler }
    }
}

/// The run of rows matched to a section: the header row `start`, then the body rows up to
/// `end` (exclusive).
#[derive(Clone, Copy, Debug, PartialEq, Eq)]
pub struct Block {
    pub section: usize,
    pub start: usize,
    pub end: usize,
}

pub open spec fn patterns(registry: Seq<Section>) -> Seq<Seq<char>> {
    registry.map_values(|s: Section| s.pattern@)
}

pub open spec fn required_flags(registry: Seq<Section>) -> Seq<bool> {
    registry.map_values(|s: Section| s.required)
}

pub open spec fn row_texts(rows: Seq<String>) -> Seq<Seq<char>> {
    rows.map_values(|r: String| r@)
}

pub open spec fn block_views(blocks: Seq<Block>) -> Seq<(int, int, int)> {
    blocks.map_values(|b: Block| (b.section as int, b.start as int, b.end as int))
}

pub open spec fn index_views(ixs: Seq<usize>) -> Seq<int> {
    ixs.map_values(|x: usize| x as int)
}

/// Whether `row` is the pattern of an entry after entry `i`.
pub open spec fn matches_later(pats: Seq<Seq<char>>, i: int, row: Seq<char>) -> bool {
    exists|m: int| i < m < pats.len() && pats[m] == row
}

/// The first row from `k` on that matches an entry after entry `i`, or the number of rows.
pub open spec fn block_end(pats: Seq<Seq<char>>, rows: Seq<Seq<char>>, i: int, k: int) -> int
    decreases rows.len() - k,
{
    if k >= rows.len() {
        rows.len() as int
    } else if matches_later(pats, i, rows[k]) {
        k
    } else {
        block_end(pats, rows, i, k + 1)
    }
}

/// The indices of the required entries from `i` on.
pub open spec fn missing_required(req: Seq<bool>, i: int) -> Seq<int>
    decreases req.len() - i,
{
    if i >= req.len() {
        Seq::empty()
    } else if req[i] {
        seq![i] + missing_required(req, i + 1)
    } else {
        missing_required(req, i + 1)
    }
}

/// The matching pass from registry entry `i` and row `j`: the blocks as
/// `(entry, start, end)`, or the indices of the required entries that were not found.
pub open spec fn run(pats: Seq<Seq<char>>, req: Seq<bool>, rows: Seq<Seq<char>>, i: int, j: int) -> Result<
    Seq<(int, int, int)>,
    Seq<int>,
>
    decreases pats.len() - i,
{
    if i >= pats.len() || i < 0 {
        Ok(Seq::empty())
    } else if j >= rows.len() || j < 0 {
        if missing_required(req, i).len() == 0 {
            Ok(Seq::empty())
        } else {
            Err(missing_required(req, i))
        }
    } else if rows[j] == pats[i] {
        let e = block_end(pats, rows, i, j + 1);
        match run(pats, req, rows, i + 1, e) {
            Ok(bs) => Ok(seq![(i, j, e)] + bs),
            Err(m) => Err(m),
        }
    } else if req[i] {
        Err(seq![i])
    } else {
        run(pats, req, rows, i + 1, j)
    }
}

pub open spec fn prepend(acc: Seq<(int, int, int)>, res: Result<Seq<(int, int, int)>, Seq<int>>) -> Result<
    Seq<(int, int, int)>,
    Seq<int>,
> {
    match res {
        Ok(bs) => Ok(acc + bs),
        Err(m) => Err(m),
    }
}

/// The result of matching `registry` against `rows`.
pub open spec fn matching(registry: Seq<Section>, rows: Seq<String>) -> Result<
    Seq<(int, int, int)>,
    Seq<int>,
> {
    run(patterns(registry), required_flags(registry), row_texts(rows), 0, 0)
}

fn matches_later_exec(registry: &Vec<Section>, i: usize, row: &String) -> (r: bool)
    requires
        i < registry.len(),
    ensures
        r == matches_later(patterns(registry@), i as int, row@),
{
    let ghost pats = patterns(registry@);
    let mut m: usize = i + 1;
    while m < registry.len()
        invariant
            i < m <= registry.len(),
            pats == patterns(registry@),
            forall|k: int| i < k < m ==> pats[k] != row@,
        decreases registry.len() - m,
    {
        if registry[m].pattern == *row {
            assert(pats[m as int] == row@);
            return true;
        }
        m = m + 1;
    }
    false
}

fn block_end_exec(registry: &Vec<Section>, rows: &Vec<String>, i: usize, from: usize) -> (e: usize)
    requires
        i < registry.len(),
        from <= rows.len(),
    ensures
        e == block_end(patterns(registry@), row_texts(rows@), i as int, from as int),
        from <= e <= rows.len(),
{
    let ghost pats = patterns(registry@);
    let ghost texts = row_texts(rows@);
    let mut k: usize = from;
    while k < rows.len()
        invariant
            from <= k <= rows.len(),
            i < registry.len(),
            pats == patterns(registry@),
            texts == row_texts(rows@),
            block_end(pats, texts, i as int, from as int) == block_end(pats, texts, i as int, k as int),
        decreases rows.len() - k,
    {
        if matches_later_exec(registry, i, &rows[k]) {
            return k;
        }
        k = k + 1;
    }
    k
}

fn missing_from(registry: &Vec<Section>, i: usize) -> (r: Vec<usize>)
    requires
        i <= registry.len(),
    ensures
        index_views(r@) == missing_required(required_flags(registry@), i as int),
{
    let ghost req = required_flags(registry@);
    let mut out: Vec<usize> = Vec::new();
    let mut k: usize = i;
    while k < registry.len()
        invariant
            i <= k <= registry.len(),
            req == required_flags(registry@),
            index_views(out@) + missing_required(req, k as int) == missing_required(req, i as int),
        decreases registry.len() - k,
    {
        if registry[k].required {
            let ghost before = out@;
            out.push(k);
            assert(index_views(out@) == index_views(before) + seq![k as int]);
            assert(index_views(before) + missing_required(req, k as int) == index_views(out@)
                + missing_required(req, k + 1));
        }
        k = k + 1;
    }
    assert(index_views(out@) + Seq::<int>::empty() == index_views(out@));
    out
}

/// Matches `registry` against `rows` in one left-to-right pass: the blocks in document
/// order, or the indices of the required sections that were not found.
pub fn match_sections(registry: &Vec<Section>, rows: &Vec<String>) -> (r: Result<Vec<Block>, Vec<usize>>)
    ensures
        match r {
            Ok(bs) => matching(registry@, rows@) == Ok::<Seq<(int, int, int)>, Seq<int>>(block_views(bs@)),
            Err(m) => matching(registry@, rows@) == Err::<Seq<(int, int, int)>, Seq<int>>(index_views(m@)),
        },
{
    let ghost pats = patterns(registry@);
    let ghost req = required_flags(registry@);
    let ghost texts = row_texts(rows@);
    let mut blocks: Vec<Block> = Vec::new();
    let mut i: usize = 0;
    let mut j: usize = 0;
    assert(block_views(blocks@) + Seq::<(int, int, int)>::empty() == Seq::<(int, int, int)>::empty());
    while i < registry.len()
        invariant
            0 <= i <= registry.len(),
            0 <= j <= rows.len(),
            pats == patterns(registry@),
            req == required_flags(registry@),
            texts == row_texts(rows@),
            matching(registry@, rows@) == prepend(block_views(blocks@), run(pats, req, texts, i as int, j as int)),
        decreases registry.len() - i,
    {
        if j >= rows.len() {
            let missing = missing_from(registry, i);
            if missing.len() == 0 {
                assert(block_views(blocks@) + Seq::<(int, int, int)>::empty() == block_views(blocks@));
                return Ok(blocks);
            }
            return Err(missing);
        }
        if rows[j] == registry[i].pattern {
            let e = block_end_exec(registry, rows, i, j + 1);
            let ghost before = blocks@;
            blocks.push(Block { section: i, start: j, end: e });
            assert(block_views(blocks@) == block_views(before) + seq![(i as int, j as int, e as int)]);
            proof {
                match run(pats, req, texts, i + 1, e as int) {
                    Ok(bs) => {
                        assert(block_views(before) + (seq![(i as int, j as int, e as int)] + bs)
                            == block_views(blocks@) + bs);
                    },
                    Err(m) => {},
                }
            }
            i = i + 1;
            j = e;
        } else if registry[i].required {
            let mut missing: Vec<usize> = Vec::new();
            missing.push(i);
            assert(index_views(missing@) == seq![i as int]);
            return Err(missing);
        } else {
            i = i + 1;
        }
    }
    assert(block_views(blocks@) + Seq::<(int, int, int)>::empty() == block_views(blocks@));
    Ok(blocks)
}


/// `rows` consist of the given blocks, back to back: each opens with a header row equal to
/// its entry's pattern, its other rows match no pattern, and the entries ascend.
pub open spec fn valid_layout(pats: Seq<Seq<char>>, rows: Seq<Seq<char>>, blocks: Seq<(int, int, int)>) -> bool {
    &&& forall|a: int, b: int| 0 <= a < b < pats.len() ==> pats[a] != pats[b]
    &&& forall|t: int|
        0 <= t < blocks.len() ==> {
            &&& 0 <= (#[trigger] blocks[t]).0 < pats.len()
            &&& 0 <= blocks[t].1 < blocks[t].2
            &&& rows[blocks[t].1] == pats[blocks[t].0]
        }
    &&& forall|t: int|
        0 <= t < blocks.len() - 1 ==> (#[trigger] blocks[t]).0 < blocks[t + 1].0 && blocks[t].2
            == blocks[t + 1].1
    &&& blocks.len() == 0 ==> rows.len() == 0
    &&& blocks.len() > 0 ==> blocks[0].1 == 0 && blocks.last().2 == rows.len()
    &&& forall|t: int, k: int, m: int|
        #![trigger blocks[t], rows[k], pats[m]]
        0 <= t < blocks.len() && blocks[t].1 < k < blocks[t].2 && 0 <= m < pats.len() ==> rows[k]
            != pats[m]
}

/// Every required entry is the entry of some block, but possibly `omitted`.
pub open spec fn covers_required(req: Seq<bool>, blocks: Seq<(int, int, int)>, omitted: int) -> bool {
    forall|m: int|
        0 <= m < req.len() && #[trigger] req[m] && m != omitted ==> exists|t: int|
            0 <= t < blocks.len() && (#[trigger] blocks[t]).0 == m
}

proof fn lemma_layout_chain(pats: Seq<Seq<char>>, rows: Seq<Seq<char>>, blocks: Seq<(int, int, int)>, t: int, s: int)
    requires
        valid_layout(pats, rows, blocks),
        0 <= t <= s < blocks.len(),
    ensures
        t < s ==> blocks[t].0 < blocks[s].0 && blocks[t].2 <= blocks[s].1,
        blocks[s].2 <= rows.len(),
    decreases blocks.len() - t,
{
    if t < s {
        lemma_layout_chain(pats, rows, blocks, t + 1, s);
        assert(blocks[t + 1].1 < blocks[t + 1].2);
    } else if s < blocks.len() - 1 {
        lemma_layout_chain(pats, rows, blocks, s + 1, s + 1);
        assert(blocks[s + 1].1 < blocks[s + 1].2);
    }
}

proof fn lemma_block_end_layout(pats: Seq<Seq<char>>, rows: Seq<Seq<char>>, blocks: Seq<(int, int, int)>, t: int, k: int)
    requires
        valid_layout(pats, rows, blocks),
        0 <= t < blocks.len(),
        blocks[t].1 < k <= blocks[t].2,
    ensures
        block_end(pats, rows, blocks[t].0, k) == blocks[t].2,
    decreases blocks[t].2 - k,
{
    lemma_layout_chain(pats, rows, blocks, t, t);
    let i = blocks[t].0;
    if k == blocks[t].2 {
        if k < rows.len() {
            assert(t < blocks.len() - 1);
            assert(blocks[t + 1].0 > i);
            assert(rows[k] == pats[blocks[t + 1].0]);
            assert(matches_later(pats, i, rows[k]));
        }
    } else {
        assert(!matches_later(pats, i, rows[k])) by {
            assert forall|m: int| i < m < pats.len() implies pats[m] != rows[k] by {
                assert(rows[k] != pats[m]);
            }
        }
        lemma_block_end_layout(pats, rows, blocks, t, k + 1);
    }
}

proof fn lemma_missing_required(req: Seq<bool>, i: int, omitted: int)
    requires
        0 <= i,
        forall|m: int| i <= m < req.len() && m != omitted ==> !#[trigger] req[m],
    ensures
        omitted < i || omitted >= req.len() || !req[omitted] ==> missing_required(req, i)
            == Seq::<int>::empty(),
        i <= omitted < req.len() && req[omitted] ==> missing_required(req, i) == seq![omitted],
    decreases req.len() - i,
{
    if i < req.len() {
        lemma_missing_required(req, i + 1, omitted);
        if i == omitted && req[i] {
            assert(seq![omitted] + Seq::<int>::empty() == seq![omitted]);
        }
    }
}

proof fn lemma_run_layout(
    pats: Seq<Seq<char>>,
    req: Seq<bool>,
    rows: Seq<Seq<char>>,
    blocks: Seq<(int, int, int)>,
    omitted: int,
    i: int,
    t: int,
)
    requires
        valid_layout(pats, rows, blocks),
        req.len() == pats.len(),
        covers_required(req, blocks, omitted),
        forall|s: int| 0 <= s < blocks.len() ==> (#[trigger] blocks[s]).0 != omitted,
        0 <= i <= pats.len(),
        0 <= t <= blocks.len(),
        t > 0 ==> blocks[t - 1].0 < i,
        t < blocks.len() ==> i <= blocks[t].0,
        0 <= omitted < pats.len() && req[omitted] ==> i <= omitted,
    ensures
        ({
            let j = if t < blocks.len() { blocks[t].1 } else { rows.len() as int };
            let res = run(pats, req, rows, i, j);
            &&& !(0 <= omitted < req.len() && req[omitted]) ==> res == Ok::<
                Seq<(int, int, int)>,
                Seq<int>,
            >(blocks.subrange(t, blocks.len() as int))
            &&& 0 <= omitted < req.len() && req[omitted] ==> res == Err::<
                Seq<(int, int, int)>,
                Seq<int>,
            >(seq![omitted])
        }),
    decreases pats.len() - i,
{
    let n = blocks.len() as int;
    let j = if t < n { blocks[t].1 } else { rows.len() as int };
    if t < n {
        lemma_layout_chain(pats, rows, blocks, t, n - 1);
        lemma_layout_chain(pats, rows, blocks, t, t);
    }
    // Required entries from `i` on are all blocks from `t` on (but `omitted`).
    assert forall|m: int| i <= m < req.len() && #[trigger] req[m] && m != omitted implies exists|s: int|
        t <= s < n && (#[trigger] blocks[s]).0 == m by {
        let s = choose|s: int| 0 <= s < n && (#[trigger] blocks[s]).0 == m;
        if s < t {
            if s < t - 1 {
                lemma_layout_chain(pats, rows, blocks, s, t - 1);
            }
        }
    }
    if i >= pats.len() {
        if t < n {
            assert(blocks[t].0 < pats.len());
        }
        assert(blocks.subrange(t, n) =~= Seq::<(int, int, int)>::empty());
    } else if j >= rows.len() {
        assert(t == n);
        assert forall|m: int| i <= m < req.len() && m != omitted implies !#[trigger] req[m] by {
            if req[m] {
                let s = choose|s: int| t <= s < n && (#[trigger] blocks[s]).0 == m;
            }
        }
        lemma_missing_required(req, i, omitted);
        assert(blocks.subrange(t, n) =~= Seq::<(int, int, int)>::empty());
    } else {
        assert(t < n);
        let e = blocks[t].2;
        if rows[j] == pats[i] {
            assert(blocks[t].0 == i) by {
                if blocks[t].0 != i {
                    assert(pats[blocks[t].0] == pats[i]);
                }
            }
            lemma_block_end_layout(pats, rows, blocks, t, j + 1);
            if t + 1 < n {
                assert(blocks[t + 1].1 == e);
            }
            lemma_run_layout(pats, req, rows, blocks, omitted, i + 1, t + 1);
            assert(blocks.subrange(t, n) =~= seq![(i, j, e)] + blocks.subrange(t + 1, n));
        } else {
            assert(blocks[t].0 != i);
            if i == omitted && req[i] {
            } else {
                assert(!req[i]) by {
                    if req[i] {
                        let s = choose|s: int| t <= s < n && (#[trigger] blocks[s]).0 == i;
                        if s > t {
                            lemma_layout_chain(pats, rows, blocks, t, s);
                        }
                    }
                }
                lemma_run_layout(pats, req, rows, blocks, omitted, i + 1, t);
            }
        }
    }
}

/// A report whose sections are an order-preserving subset of the registry that includes
/// every required section is matched in full: the blocks come back in document order.
pub proof fn lemma_layout_matches(registry: Seq<Section>, rows: Seq<String>, blocks: Seq<(int, int, int)>)
    requires
        valid_layout(patterns(registry), row_texts(rows), blocks),
        covers_required(required_flags(registry), blocks, -1),
    ensures
        matching(registry, rows) == Ok::<Seq<(int, int, int)>, Seq<int>>(blocks),
{
    if blocks.len() > 0 {
        lemma_layout_chain(patterns(registry), row_texts(rows), blocks, 0, 0);
    }
    lemma_run_layout(patterns(registry), required_flags(registry), row_texts(rows), blocks, -1, 0, 0);
    assert(blocks.subrange(0, blocks.len() as int) =~= blocks);
}

/// Leaving one required section out of an otherwise complete report fails the match,
/// naming exactly that section.
pub proof fn lemma_omitted_section_named(
    registry: Seq<Section>,
    rows: Seq<String>,
    blocks: Seq<(int, int, int)>,
    omitted: int,
)
    requires
        valid_layout(patterns(registry), row_texts(rows), blocks),
        0 <= omitted < registry.len(),
        registry[omitted].required,
        forall|s: int| 0 <= s < blocks.len() ==> (#[trigger] blocks[s]).0 != omitted,
        covers_required(required_flags(registry), blocks, omitted),
    ensures
        matching(registry, rows) == Err::<Seq<(int, int, int)>, Seq<int>>(seq![omitted]),
{
    assert(required_flags(registry)[omitted]);
    lemma_run_layout(patterns(registry), required_flags(registry), row_texts(rows), blocks, omitted, 0, 0);
}


/// Every block names an entry of the registry and a non-empty run of rows.
pub open spec fn blocks_in_range(blocks: Seq<(int, int, int)>, n_sections: int, n_rows: int) -> bool {
    forall|t: int|
        0 <= t < blocks.len() ==> 0 <= (#[trigger] blocks[t]).0 < n_sections && 0 <= blocks[t].1
            < blocks[t].2 <= n_rows
}

proof fn lemma_block_end_range(pats: Seq<Seq<char>>, rows: Seq<Seq<char>>, i: int, k: int)
    requires
        k <= rows.len(),
    ensures
        k <= block_end(pats, rows, i, k) <= rows.len(),
    decreases rows.len() - k,
{
    if k < rows.len() && !matches_later(pats, i, rows[k]) {
        lemma_block_end_range(pats, rows, i, k + 1);
    }
}

proof fn lemma_run_in_range(pats: Seq<Seq<char>>, req: Seq<bool>, rows: Seq<Seq<char>>, i: int, j: int)
    requires
        0 <= j,
    ensures
        run(pats, req, rows, i, j) is Ok ==> blocks_in_range(
            run(pats, req, rows, i, j)->Ok_0,
            pats.len() as int,
            rows.len() as int,
        ),
    decreases pats.len() - i,
{
    if 0 <= i < pats.len() && j < rows.len() {
        if rows[j] == pats[i] {
            let e = block_end(pats, rows, i, j + 1);
            lemma_block_end_range(pats, rows, i, j + 1);
            lemma_run_in_range(pats, req, rows, i + 1, e);
            if run(pats, req, rows, i + 1, e) is Ok {
                let bs = run(pats, req, rows, i + 1, e)->Ok_0;
                let all = seq![(i, j, e)] + bs;
                assert forall|t: int| 0 <= t < all.len() implies 0 <= (#[trigger] all[t]).0 < pats.len()
                    && 0 <= all[t].1 < all[t].2 <= rows.len() by {
                    if t > 0 {
                        assert(all[t] == bs[t - 1]);
                    }
                }
            }
        } else if !req[i] {
            lemma_run_in_range(pats, req, rows, i + 1, j);
        }
    }
}

proof fn lemma_missing_required_range(req: Seq<bool>, i: int)
    requires
        0 <= i,
    ensures
        forall|k: int| 0 <= k < missing_required(req, i).len() ==> i <= #[trigger] missing_required(req, i)[k] < req.len(),
    decreases req.len() - i,
{
    if i < req.len() {
        lemma_missing_required_range(req, i + 1);
        let rest = missing_required(req, i + 1);
        let all = missing_required(req, i);
        if req[i] {
            assert(all == seq![i] + rest);
            assert forall|k: int| 0 <= k < all.len() implies i <= #[trigger] all[k] < req.len() by {
                if k > 0 {
                    assert(all[k] == rest[k - 1]);
                }
            }
        } else {
            assert(all == rest);
        }
    }
}

proof fn lemma_run_errors_in_range(pats: Seq<Seq<char>>, req: Seq<bool>, rows: Seq<Seq<char>>, i: int, j: int)
    requires
        0 <= i,
        req.len() == pats.len(),
    ensures
        run(pats, req, rows, i, j) is Err ==> forall|k: int|
            0 <= k < run(pats, req, rows, i, j)->Err_0.len() ==> 0 <= #[trigger] run(pats, req, rows, i, j)->Err_0[k] < pats.len(),
    decreases pats.len() - i,
{
    if 0 <= i < pats.len() {
        if j >= rows.len() || j < 0 {
            lemma_missing_required_range(req, i);
        } else if rows[j] == pats[i] {
            lemma_run_errors_in_range(pats, req, rows, i + 1, block_end(pats, rows, i, j + 1));
        } else if !req[i] {
            lemma_run_errors_in_range(pats, req, rows, i + 1, j);
        }
    }
}

/// The sections that a failed match names are entries of the registry.
pub proof fn lemma_missing_in_range(registry: Seq<Section>, rows: Seq<String>, k: int)
    requires
        matching(registry, rows) is Err,
        0 <= k < matching(registry, rows)->Err_0.len(),
    ensures
        0 <= matching(registry, rows)->Err_0[k] < registry.len(),
{
    lemma_run_errors_in_range(patterns(registry), required_flags(registry), row_texts(rows), 0, 0);
}

/// The blocks of a successful match lie within the registry and the rows.
pub proof fn lemma_matching_in_range(registry: Seq<Section>, rows: Seq<String>)
    ensures
        matching(registry, rows) is Ok ==> blocks_in_range(
            matching(registry, rows)->Ok_0,
            registry.len() as int,
            rows.len() as int,
        ),
{
    lemma_run_in_range(patterns(registry), required_flags(registry), row_texts(rows), 0, 0);
}

} // verus!

//! Assembling a statement from the blocks that the registry matched.
//!
//! A record is kept as the index of the report row it came from; the cells of that row
//! are the record's fields in the broker's own layout.
use vstd::prelude::*;
use crate::registry::{
    Block, blocks_in_range, lemma_matching_in_range, lemma_missing_in_range, required_flags, run, HandlerKind, Section, block_views, index_views, match_sections, matching, patterns,
    row_texts,
};

verus! {

/// What a successful read produced, in document order.
#[derive(Clone, Debug)]
pub struct Statement {
    /// Header rows of the period sections.
    pub period: Vec<usize>,
    pub cash_flows: Vec<usize>,
    pub stock_buys: Vec<usize>,
    pub open_positions: Vec<usize>,
    pub cash_assets: Vec<usize>,
}

#[derive(Clone, Debug)]
pub enum StatementError {
    /// Required sections that were not found, by pattern.
    MissingSection(Vec<String>),
    /// A row of a handled section has no cells.
    Parse { section: String, row: usize },
}

/// The kinds of records a statement collects.
#[derive(Clone, Copy, Debug, PartialEq, Eq)]
pub enum RecordKind {
    CashFlow,
    StockBuy,
    OpenPosition,
    CashAsset,
}

/// The leading cell of an asset row that holds free cash rather than a position.
pub open spec fn cash_label() -> Seq<char> {
    "Денежные средства"@
}

fn cash_label_exec() -> (r: String)
    ensures
        r@ == cash_label(),
{
    "Денежные средства".to_string()
}

/// The text by which a row is matched: its leading cell, or nothing.
pub open spec fn row_key(row: Seq<String>) -> Seq<char> {
    if row.len() > 0 {
        row[0]@
    } else {
        Seq::empty()
    }
}

pub open spec fn row_keys(rows: Seq<Vec<String>>) -> Seq<Seq<char>> {
    rows.map_values(|r: Vec<String>| row_key(r@))
}

/// The registry matched against the leading cells of `rows`.
pub open spec fn run_of(registry: Seq<Section>, rows: Seq<Vec<String>>) -> Result<
    Seq<(int, int, int)>,
    Seq<int>,
> {
    run(patterns(registry), required_flags(registry), row_keys(rows), 0, 0)
}

/// Whether a body row with leading text `key`, in a section handled by `h`, is a record
/// of kind `kind`.
pub open spec fn selects(kind: RecordKind, h: Option<HandlerKind>, key: Seq<char>) -> bool {
    match kind {
        RecordKind::CashFlow => h == Some(HandlerKind::CashFlow),
        RecordKind::StockBuy => h == Some(HandlerKind::Trades),
        RecordKind::OpenPosition => h == Some(HandlerKind::Assets) && key != cash_label(),
        RecordKind::CashAsset => h == Some(HandlerKind::Assets) && key == cash_label(),
    }
}

/// The body rows from `start + 1` up to `k` that are records of `kind`.
pub open spec fn picks(kind: RecordKind, h: Option<HandlerKind>, keys: Seq<Seq<char>>, start: int, k: int) -> Seq<int>
    decreases k - start,
{
    if k <= start + 1 {
        Seq::empty()
    } else {
        picks(kind, h, keys, start, k - 1) + if selects(kind, h, keys[k - 1]) {
            seq![k - 1]
        } else {
            Seq::empty()
        }
    }
}

/// The records of `kind` in the first `t` blocks.
pub open spec fn records(
    kind: RecordKind,
    registry: Seq<Section>,
    keys: Seq<Seq<char>>,
    blocks: Seq<(int, int, int)>,
    t: int,
) -> Seq<int>
    decreases t,
{
    if t <= 0 {
        Seq::empty()
    } else {
        let b = blocks[t - 1];
        records(kind, registry, keys, blocks, t - 1) + picks(kind, registry[b.0].handler, keys, b.1, b.2)
    }
}

/// The period header rows in the first `t` blocks.
pub open spec fn period_rows(registry: Seq<Section>, blocks: Seq<(int, int, int)>, t: int) -> Seq<int>
    decreases t,
{
    if t <= 0 {
        Seq::empty()
    } else {
        let b = blocks[t - 1];
        period_rows(registry, blocks, t - 1) + if registry[b.0].handler == Some(HandlerKind::Period) {
            seq![b.1]
        } else {
            Seq::empty()
        }
    }
}

/// Whether row `k` belongs to block `b` and must hold a record: the header of a period
/// section, or a body row of another handled section.
pub open spec fn handled_row(registry: Seq<Section>, b: (int, int, int), k: int) -> bool {
    match registry[b.0].handler {
        None => false,
        Some(HandlerKind::Period) => k == b.1,
        Some(_) => b.1 < k < b.2,
    }
}

/// Some row that must hold a record has no cells.
pub open spec fn has_empty_record(registry: Seq<Section>, rows: Seq<Vec<String>>, blocks: Seq<(int, int, int)>) -> bool {
    exists|t: int, k: int|
        0 <= t < blocks.len() && handled_row(registry, #[trigger] blocks[t], k) && 0 <= k < rows.len()
            && (#[trigger] rows[k])@.len() == 0
}

fn keys_of(rows: &Vec<Vec<String>>) -> (r: Vec<String>)
    ensures
        row_texts(r@) == row_keys(rows@),
{
    let mut out: Vec<String> = Vec::new();
    let mut i: usize = 0;
    while i < rows.len()
        invariant
            0 <= i <= rows.len(),
            out@.len() == i,
            forall|k: int| 0 <= k < i ==> (#[trigger] out@[k])@ == row_key(rows@[k]@),
        decreases rows.len() - i,
    {
        if rows[i].len() > 0 {
            out.push(rows[i][0].clone());
        } else {
            out.push(String::new());
        }
        i = i + 1;
    }
    assert(row_texts(out@) =~= row_keys(rows@));
    out
}

fn names_of(registry: &Vec<Section>, ixs: &Vec<usize>) -> (r: Vec<String>)
    requires
        forall|k: int| 0 <= k < ixs@.len() ==> #[trigger] ixs@[k] < registry@.len(),
    ensures
        row_texts(r@) == index_views(ixs@).map_values(|m: int| patterns(registry@)[m]),
{
    let mut out: Vec<String> = Vec::new();
    let mut i: usize = 0;
    while i < ixs.len()
        invariant
            0 <= i <= ixs.len(),
            forall|k: int| 0 <= k < ixs@.len() ==> #[trigger] ixs@[k] < registry@.len(),
            out@.len() == i,
            forall|k: int| 0 <= k < i ==> (#[trigger] out@[k])@ == registry@[ixs@[k] as int].pattern@,
        decreases ixs.len() - i,
    {
        out.push(registry[ixs[i]].pattern.clone());
        i = i + 1;
    }
    assert(row_texts(out@) =~= index_views(ixs@).map_values(|m: int| patterns(registry@)[m]));
    out
}


fn selects_exec(kind: RecordKind, h: Option<HandlerKind>, key: &String, label: &String) -> (r: bool)
    requires
        label@ == cash_label(),
    ensures
        r == selects(kind, h, key@),
{
    match kind {
        RecordKind::CashFlow => matches!(h, Some(HandlerKind::CashFlow)),
        RecordKind::StockBuy => matches!(h, Some(HandlerKind::Trades)),
        RecordKind::OpenPosition => matches!(h, Some(HandlerKind::Assets)) && !(*key == *label),
        RecordKind::CashAsset => matches!(h, Some(HandlerKind::Assets)) && *key == *label,
    }
}

/// The records of `kind` in `blocks`, in document order.
fn collect_records(
    kind: RecordKind,
    registry: &Vec<Section>,
    keys: &Vec<String>,
    blocks: &Vec<Block>,
    label: &String,
) -> (r: Vec<usize>)
    requires
        blocks_in_range(block_views(blocks@), registry.len() as int, keys.len() as int),
        label@ == cash_label(),
    ensures
        index_views(r@) == records(
            kind,
            registry@,
            row_texts(keys@),
            block_views(blocks@),
            blocks.len() as int,
        ),
{
    let ghost bv = block_views(blocks@);
    let ghost kv = row_texts(keys@);
    let mut out: Vec<usize> = Vec::new();
    let mut t: usize = 0;
    while t < blocks.len()
        invariant
            0 <= t <= blocks.len(),
            bv == block_views(blocks@),
            kv == row_texts(keys@),
            blocks_in_range(bv, registry.len() as int, keys.len() as int),
            label@ == cash_label(),
            index_views(out@) == records(kind, registry@, kv, bv, t as int),
        decreases blocks.len() - t,
    {
        let b = blocks[t];
        assert(bv[t as int] == (b.section as int, b.start as int, b.end as int));
        let h = registry[b.section].handler;
        let ghost base = out@;
        let mut k: usize = b.start + 1;
        while k < b.end
            invariant
                b.start < k <= b.end,
                b.end <= keys.len(),
                h == registry@[b.section as int].handler,
                kv == row_texts(keys@),
                label@ == cash_label(),
                index_views(out@) == index_views(base) + picks(kind, h, kv, b.start as int, k as int),
            decreases b.end - k,
        {
            let ghost before = out@;
            if selects_exec(kind, h, &keys[k], label) {
                out.push(k);
                assert(index_views(out@) == index_views(before) + seq![k as int]);
            }
            k = k + 1;
        }
        t = t + 1;
    }
    out
}

/// The period header rows in `blocks`, in document order.
fn collect_periods(registry: &Vec<Section>, blocks: &Vec<Block>) -> (r: Vec<usize>)
    requires
        forall|t: int| 0 <= t < blocks.len() ==> (#[trigger] blocks@[t]).section < registry.len(),
    ensures
        index_views(r@) == period_rows(registry@, block_views(blocks@), blocks.len() as int),
{
    let mut out: Vec<usize> = Vec::new();
    let mut t: usize = 0;
    while t < blocks.len()
        invariant
            0 <= t <= blocks.len(),
            forall|t: int| 0 <= t < blocks.len() ==> (#[trigger] blocks@[t]).section < registry.len(),
            index_views(out@) == period_rows(registry@, block_views(blocks@), t as int),
        decreases blocks.len() - t,
    {
        let b = blocks[t];
        let ghost before = out@;
        if matches!(registry[b.section].handler, Some(HandlerKind::Period)) {
            out.push(b.start);
            assert(index_views(out@) == index_views(before) + seq![b.start as int]);
        } else {
            assert(index_views(before) + Seq::<int>::empty() == index_views(before));
        }
        t = t + 1;
    }
    out
}

/// The first block and row that must hold a record and has no cells, if any.
fn find_empty_record(registry: &Vec<Section>, rows: &Vec<Vec<String>>, blocks: &Vec<Block>) -> (r: Option<(usize, usize)>)
    requires
        blocks_in_range(block_views(blocks@), registry.len() as int, rows.len() as int),
    ensures
        r is None <==> !has_empty_record(registry@, rows@, block_views(blocks@)),
        r matches Some((t, k)) ==> t < blocks.len() && k < rows.len() && handled_row(
            registry@,
            block_views(blocks@)[t as int],
            k as int,
        ) && rows@[k as int]@.len() == 0,
{
    let ghost bv = block_views(blocks@);
    let mut t: usize = 0;
    while t < blocks.len()
        invariant
            0 <= t <= blocks.len(),
            bv == block_views(blocks@),
            blocks_in_range(bv, registry.len() as int, rows.len() as int),
            forall|u: int, k: int|
                0 <= u < t && handled_row(registry@, #[trigger] bv[u], k) && 0 <= k < rows.len()
                    ==> (#[trigger] rows@[k])@.len() > 0,
        decreases blocks.len() - t,
    {
        let b = blocks[t];
        assert(bv[t as int] == (b.section as int, b.start as int, b.end as int));
        match registry[b.section].handler {
            None => {},
            Some(HandlerKind::Period) => {
                if rows[b.start].len() == 0 {
                    return Some((t, b.start));
                }
            },
            Some(_) => {
                let mut k: usize = b.start + 1;
                while k < b.end
                    invariant
                        b.start < k <= b.end,
                        b.end <= rows.len(),
                        t < blocks.len(),
                        bv == block_views(blocks@),
                        bv[t as int] == (b.section as int, b.start as int, b.end as int),
                        b.section < registry.len(),
                        registry@[b.section as int].handler is Some,
                        registry@[b.section as int].handler != Some(HandlerKind::Period),
                        forall|j: int| b.start < j < k ==> (#[trigger] rows@[j])@.len() > 0,
                    decreases b.end - k,
                {
                    if rows[k].len() == 0 {
                        return Some((t, k));
                    }
                    k = k + 1;
                }
            },
        }
        t = t + 1;
    }
    None
}

/// What reading `rows` against `registry` gives: the records of each kind in document
/// order; the patterns of the missing required sections; or the first row that a handler
/// could not read.
pub open spec fn read_outcome(registry: Seq<Section>, rows: Seq<Vec<String>>, r: Result<Statement, StatementError>) -> bool {
    let m = run_of(registry, rows);
    &&& r is Ok ==> m is Ok && !has_empty_record(registry, rows, m->Ok_0) && {
        let st = r->Ok_0;
        let bs = m->Ok_0;
        let keys = row_keys(rows);
        &&& index_views(st.period@) == period_rows(registry, bs, bs.len() as int)
        &&& index_views(st.cash_flows@) == records(RecordKind::CashFlow, registry, keys, bs, bs.len() as int)
        &&& index_views(st.stock_buys@) == records(RecordKind::StockBuy, registry, keys, bs, bs.len() as int)
        &&& index_views(st.open_positions@) == records(RecordKind::OpenPosition, registry, keys, bs, bs.len() as int)
        &&& index_views(st.cash_assets@) == records(RecordKind::CashAsset, registry, keys, bs, bs.len() as int)
    }
    &&& (r is Err && r->Err_0 is MissingSection) <==> m is Err
    &&& r is Err && r->Err_0 is MissingSection ==> row_texts(r->Err_0->MissingSection_0@)
        == m->Err_0.map_values(|i: int| patterns(registry)[i])
    &&& (r is Err && r->Err_0 is Parse) <==> m is Ok && has_empty_record(registry, rows, m->Ok_0)
    &&& r is Err && r->Err_0 is Parse ==> {
        let row = r->Err_0->row;
        &&& row < rows.len()
        &&& rows[row as int]@.len() == 0
        &&& exists|t: int|
            0 <= t < m->Ok_0.len() && handled_row(registry, #[trigger] m->Ok_0[t], row as int)
                && r->Err_0->section@ == patterns(registry)[m->Ok_0[t].0]
    }
}

/// Reads `rows` against `registry`: the records of every matched section, or the error
/// that stopped the read. No partial statement escapes.
pub fn assemble(registry: &Vec<Section>, rows: &Vec<Vec<String>>) -> (r: Result<Statement, StatementError>)
    ensures
        read_outcome(registry@, rows@, r),
{
    let keys = keys_of(rows);
    proof {
        lemma_matching_in_range(registry@, keys@);
        assert(row_texts(keys@).len() == rows.len());
    }
    let blocks = match match_sections(registry, &keys) {
        Err(missing) => {
            proof {
                assert forall|k: int| 0 <= k < missing@.len() implies #[trigger] missing@[k] < registry@.len() by {
                    lemma_missing_in_range(registry@, keys@, k);
                    assert(index_views(missing@)[k] == missing@[k] as int);
                }
            }
            return Err(StatementError::MissingSection(names_of(registry, &missing)));
        },
        Ok(blocks) => blocks,
    };
    let ghost bv = block_views(blocks@);
    assert(blocks_in_range(bv, registry.len() as int, keys.len() as int));
    assert forall|t: int| 0 <= t < blocks.len() implies (#[trigger] blocks@[t]).section < registry.len() by {
        assert(bv[t] == (blocks@[t].section as int, blocks@[t].start as int, blocks@[t].end as int));
    }
    match find_empty_record(registry, rows, &blocks) {
        Some((t, k)) => {
            let section = registry[blocks[t].section].pattern.clone();
            assert(bv[t as int].0 == blocks@[t as int].section);
            return Err(StatementError::Parse { section, row: k });
        },
        None => {},
    }
    let label = cash_label_exec();
    Ok(Statement {
        period: collect_periods(registry, &blocks),
        cash_flows: collect_records(RecordKind::CashFlow, registry, &keys, &blocks, &label),
        stock_buys: collect_records(RecordKind::StockBuy, registry, &keys, &blocks, &label),
        open_positions: collect_records(RecordKind::OpenPosition, registry, &keys, &blocks, &label),
        cash_assets: collect_records(RecordKind::CashAsset, registry, &keys, &blocks, &label),
    })
}

} // verus!

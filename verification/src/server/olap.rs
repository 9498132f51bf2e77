//! Tables stored column by column: how rows are cut into chunks, and what is known of each.
use vstd::prelude::*;

use crate::row::{field, RowMap, RowModel};
use crate::schema::{views, ColumnModel, Duplicate, TableModel, TableSchema};
use crate::server::rows::{zone_maps_for_rows, zones_over, ColumnZoneMap, ZoneModel};
use crate::types::{ColumnValue, Datum};

verus! {

/// The values of a column in a chunk.
#[derive(Debug)]
pub struct ChunkColumn {
    pub column_id: u32,
    pub values: Vec<ColumnValue>,
}

/// What a [`ChunkColumn`] says.
pub struct ChunkColumnModel {
    pub column_id: u32,
    pub values: Seq<Datum>,
}

impl View for ChunkColumn {
    type V = ChunkColumnModel;

    open spec fn view(&self) -> ChunkColumnModel {
        ChunkColumnModel {
            column_id: self.column_id,
            values: views(self.values@),
        }
    }
}

/// Rows that are stored together, column by column.
#[derive(Debug)]
pub struct OlapChunk {
    pub chunk_id: u64,
    pub row_count: u32,
    pub zones: Vec<ColumnZoneMap>,
    pub columns: Vec<ChunkColumn>,
}

/// What a [`OlapChunk`] says.
pub struct ChunkModel {
    pub chunk_id: u64,
    pub row_count: u32,
    pub zones: Seq<ZoneModel>,
    pub columns: Seq<ChunkColumnModel>,
}

impl View for OlapChunk {
    type V = ChunkModel;

    open spec fn view(&self) -> ChunkModel {
        ChunkModel {
            chunk_id: self.chunk_id,
            row_count: self.row_count,
            zones: views(self.zones@),
            columns: views(self.columns@),
        }
    }
}

/// The chunks of a table, and what is known of all its rows.
#[derive(Debug)]
pub struct OlapStorage {
    pub chunks: Vec<OlapChunk>,
    pub row_count: u64,
    pub zones: Vec<ColumnZoneMap>,
}

/// What a [`OlapStorage`] says.
pub struct StorageModel {
    pub chunks: Seq<ChunkModel>,
    pub row_count: u64,
    pub zones: Seq<ZoneModel>,
}

impl View for OlapStorage {
    type V = StorageModel;

    open spec fn view(&self) -> StorageModel {
        StorageModel {
            chunks: views(self.chunks@),
            row_count: self.row_count,
            zones: views(self.zones@),
        }
    }
}

/// Items cut into pieces of some size, the last of which may be smaller.
pub open spec fn pieces<V>(items: Seq<V>, size: nat) -> Seq<Seq<V>>
    decreases items.len(),
{
    if items.len() == 0 {
        seq![]
    } else if size == 0 || items.len() <= size {
        seq![items]
    } else {
        seq![items.take(size as int)] + pieces(items.skip(size as int), size)
    }
}

/// Pieces put together again.
pub open spec fn put_together<V>(parts: Seq<Seq<V>>) -> Seq<V>
    decreases parts.len(),
{
    if parts.len() == 0 {
        seq![]
    } else {
        parts[0] + put_together(parts.skip(1))
    }
}

/// The pieces have every item, in order, and none is empty or larger than the size.
pub proof fn law_pieces_have_every_item<V>(items: Seq<V>, size: nat)
    requires
        size > 0,
    ensures
        put_together(pieces(items, size)) == items,
        forall|i: int|
            0 <= i < pieces(items, size).len() ==> 0 < (#[trigger] pieces(items, size)[i]).len()
                <= size,
    decreases items.len(),
{
    let parts = pieces(items, size);
    if items.len() == 0 {
        assert(put_together(parts) =~= items);
    } else if items.len() <= size {
        assert(parts.skip(1) =~= Seq::<Seq<V>>::empty());
        assert(put_together(parts.skip(1)) =~= Seq::<V>::empty());
        assert(items + Seq::<V>::empty() =~= items);
    } else {
        let rest = items.skip(size as int);
        law_pieces_have_every_item(rest, size);
        assert(parts.skip(1) =~= pieces(rest, size));
        assert(items.take(size as int) + rest =~= items);
        assert forall|i: int| 0 <= i < parts.len() implies 0 < (#[trigger] parts[i]).len() <= size by {
            if i > 0 {
                assert(parts[i] == pieces(rest, size)[i - 1]);
            }
        }
    }
}

/// The values of a column in rows.
pub open spec fn column_values(rows: Seq<RowModel>, name: Seq<char>) -> Seq<Datum> {
    rows.map_values(|row: RowModel| field(row, name))
}

/// A chunk of rows.
pub open spec fn chunk_of(table: TableModel, rows: Seq<RowModel>, number: int) -> ChunkModel {
    ChunkModel {
        chunk_id: number as u64,
        row_count: rows.len() as u32,
        zones: zones_over(table.columns, rows),
        columns: table.columns.map_values(
            |column: ColumnModel|
                ChunkColumnModel {
                    column_id: column.column_id,
                    values: column_values(rows, column.name),
                },
        ),
    }
}

/// The chunks of rows, counted from one.
pub open spec fn chunks_of(table: TableModel, rows: Seq<RowModel>, size: nat) -> Seq<ChunkModel> {
    pieces(rows, size).map(|i: int, part: Seq<RowModel>| chunk_of(table, part, i + 1))
}

fn values_of_column(rows: &Vec<RowMap>, name: &str) -> (values: Vec<ColumnValue>)
    ensures
        views(values@) == column_values(views(rows@), name@),
{
    let ghost all = column_values(views(rows@), name@);
    let mut values: Vec<ColumnValue> = Vec::new();
    let mut i: usize = 0;
    while i < rows.len()
        invariant
            i <= rows@.len(),
            all == column_values(views(rows@), name@),
            values@.len() == i,
            forall|k: int| 0 <= k < i ==> (#[trigger] values@[k])@ == all[k],
        decreases rows@.len() - i,
    {
        values.push(rows[i].value_or_null(name));
        i += 1;
    }
    assert(views(values@) =~= all);
    values
}

fn make_chunk(schema: &TableSchema, rows: &Vec<RowMap>, chunk_id: u64) -> (chunk: OlapChunk)
    requires
        rows@.len() <= u32::MAX,
    ensures
        chunk@ == chunk_of(schema@, views(rows@), chunk_id as int),
{
    let ghost model = chunk_of(schema@, views(rows@), chunk_id as int);
    let mut columns: Vec<ChunkColumn> = Vec::new();
    let mut i: usize = 0;
    while i < schema.columns.len()
        invariant
            i <= schema.columns@.len(),
            model == chunk_of(schema@, views(rows@), chunk_id as int),
            columns@.len() == i,
            forall|k: int| 0 <= k < i ==> (#[trigger] columns@[k])@ == model.columns[k],
        decreases schema.columns@.len() - i,
    {
        let column = &schema.columns[i];
        assert(schema@.columns[i as int] == column@);
        columns.push(
            ChunkColumn {
                column_id: column.column_id,
                values: values_of_column(rows, column.name.as_str()),
            },
        );
        i += 1;
    }
    assert(views(columns@) =~= model.columns);
    OlapChunk {
        chunk_id,
        row_count: rows.len() as u32,
        zones: zone_maps_for_rows(schema, rows),
        columns,
    }
}

proof fn lemma_pieces_from(rows: Seq<RowModel>, size: nat, done: Seq<Seq<RowModel>>, from: int)
    requires
        size > 0,
        0 <= from < rows.len(),
        pieces(rows, size) == done + pieces(rows.skip(from), size),
    ensures
        ({
            let end = if from + size < rows.len() {
                from + size
            } else {
                rows.len() as int
            };
            pieces(rows, size) == done.push(rows.subrange(from, end)) + pieces(
                rows.skip(end),
                size,
            )
        }),
{
    let rest = rows.skip(from);
    if rest.len() <= size {
        assert(rest =~= rows.subrange(from, rows.len() as int));
        assert(rows.skip(rows.len() as int) =~= Seq::<RowModel>::empty());
        assert(done + seq![rest] =~= done.push(rest) + pieces(
            rows.skip(rows.len() as int),
            size,
        ));
    } else {
        assert(rest.take(size as int) =~= rows.subrange(from, from + size));
        assert(rest.skip(size as int) =~= rows.skip(from + size));
        assert(done + (seq![rest.take(size as int)] + pieces(rows.skip(from + size), size))
            =~= done.push(rest.take(size as int)) + pieces(rows.skip(from + size), size));
    }
}

/// The chunks of a table's rows, of some size, with what is known of all rows.
pub fn olap_storage(schema: &TableSchema, rows: &Vec<RowMap>, chunk_rows: usize) -> (storage:
    OlapStorage)
    requires
        0 < chunk_rows <= u32::MAX,
    ensures
        storage@ == (StorageModel {
            chunks: chunks_of(schema@, views(rows@), chunk_rows as nat),
            row_count: rows@.len() as u64,
            zones: zones_over(schema@.columns, views(rows@)),
        }),
{
    let ghost all = views(rows@);
    let ghost size = chunk_rows as nat;
    let ghost mut done = Seq::<Seq<RowModel>>::empty();
    let total: usize = rows.len();
    let mut chunks: Vec<OlapChunk> = Vec::new();
    let mut from: usize = 0;
    assert(all.skip(0) =~= all);
    assert(done + pieces(all, size) =~= pieces(all, size));
    while from < total
        invariant
            from <= total,
            total == rows@.len(),
            0 < chunk_rows <= u32::MAX,
            size == chunk_rows,
            all == views(rows@),
            pieces(all, size) == done + pieces(all.skip(from as int), size),
            chunks@.len() == done.len(),
            done.len() <= from,
            forall|k: int|
                0 <= k < done.len() ==> (#[trigger] chunks@[k])@ == chunk_of(
                    schema@,
                    done[k],
                    k + 1,
                ),
        decreases total - from,
    {
        let end: usize = if chunk_rows < total - from {
            from + chunk_rows
        } else {
            total
        };
        let mut part: Vec<RowMap> = Vec::new();
        let mut i: usize = from;
        while i < end
            invariant
                from <= i <= end <= total,
                total == rows@.len(),
                all == views(rows@),
                views(part@) == all.subrange(from as int, i as int),
            decreases end - i,
        {
            let ghost before = views(part@);
            part.push(rows[i].duplicate());
            assert(views(part@) =~= before.push(all[i as int]));
            assert(all.subrange(from as int, i + 1) =~= before.push(all[i as int]));
            i += 1;
        }
        assert(part@.len() == views(part@).len());
        let number: u64 = chunks.len() as u64 + 1;
        chunks.push(make_chunk(schema, &part, number));
        proof {
            lemma_pieces_from(all, size, done, from as int);
            done = done.push(all.subrange(from as int, end as int));
        }
        from = end;
    }
    proof {
        assert(all.skip(from as int) =~= Seq::<RowModel>::empty());
        assert(done + Seq::<Seq<RowModel>>::empty() =~= done);
        assert(views(chunks@) =~= chunks_of(schema@, all, size));
    }
    OlapStorage { chunks, row_count: total as u64, zones: zone_maps_for_rows(schema, rows) }
}

} // verus!

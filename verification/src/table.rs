//! The table: rows written by the caller, laid out as one flat list of cells.
//!
//! That conversion is where the rules come from: five checks before a table
//! exists, and a row-matching algorithm that reconstructs which cell belonged
//! to which row after the flattening threw that away.
//!
//! **Cell keys must be unique across the whole table, not merely within a
//! row**, because by the time keys are matched the rows are gone.

use crate::text::{append_str, decimal, push_decimal};
use vstd::prelude::*;

verus! {

/// Which baseline a baseline-aligned row lines its cells up on.
#[derive(Clone, Copy, Debug, PartialEq, Eq, Structural)]
pub enum TextBaseline {
    Alphabetic,
    Ideographic,
}

/// How a cell sits within its row.
#[derive(Clone, Copy, Debug, PartialEq, Eq, Structural)]
pub enum TableCellVerticalAlignment {
    Top,
    Middle,
    Bottom,
    /// Aligns the cells' text baselines, which is the one alignment that
    /// **needs to know which baseline** -- alphabetic and ideographic sit at
    /// different heights, and there is no sensible default across scripts.
    Baseline,
    /// The cell is stretched to the row's height.
    Fill,
    /// The cell keeps its own intrinsic height.
    Intrinsic,
}

impl Default for TableCellVerticalAlignment {
    fn default() -> (r: TableCellVerticalAlignment)
        ensures
            r == TableCellVerticalAlignment::Top,
    {
        TableCellVerticalAlignment::Top
    }
}

/// A cell as the checks need it: an identity and an optional key.
#[derive(Clone, Copy, Debug, PartialEq, Eq, Structural)]
pub struct TableChild {
    pub widget: u64,
    pub key: Option<u64>,
}

impl TableChild {
    pub fn new(widget: u64) -> (r: TableChild)
        ensures
            r == (TableChild { widget, key: None }),
    {
        TableChild { widget, key: None }
    }

    pub fn keyed(widget: u64, key: u64) -> (r: TableChild)
        ensures
            r == (TableChild { widget, key: Some(key) }),
    {
        TableChild { widget, key: Some(key) }
    }
}

/// A row of a table.
///
/// It is **not a widget**: it is a way of writing down a run of cells, and
/// the table takes it apart immediately. The row's `key` survives that, and is
/// the only thing that lets the element put the row back together on the next
/// build.
#[derive(Clone, Debug, PartialEq, Eq)]
pub struct TableRow {
    pub key: Option<u64>,
    /// Fills the horizontal and vertical extent of the row, unlike a cell's
    /// own decoration, which might not fill either.
    pub decoration: Option<u64>,
    pub children: Vec<TableChild>,
}

impl Default for TableRow {
    fn default() -> (r: TableRow)
        ensures
            r.key is None,
            r.decoration is None,
            r.children@ == Seq::<TableChild>::empty(),
    {
        TableRow { key: None, decoration: None, children: Vec::new() }
    }
}

/// The widgets of a run of cells, comma-separated.
pub open spec fn joined_widgets(children: Seq<TableChild>) -> Seq<char>
    decreases children.len(),
{
    if children.len() == 0 {
        Seq::empty()
    } else if children.len() == 1 {
        decimal(children[0].widget as nat)
    } else {
        joined_widgets(children.drop_last()) + ", "@ + decimal(children.last().widget as nat)
    }
}

/// How a row describes itself: `TableRow([key], decoration, [w1, w2])`,
/// leaving out what is absent and saying `no children` for an empty row.
pub open spec fn describe_row(row: TableRow) -> Seq<char> {
    let key_part = match row.key {
        Some(key) => "["@ + decimal(key as nat) + "], "@,
        None => Seq::empty(),
    };
    let decoration_part = match row.decoration {
        Some(decoration) => decimal(decoration as nat) + ", "@,
        None => Seq::empty(),
    };
    let children_part = if row.children@.len() == 0 {
        "no children"@
    } else {
        "["@ + joined_widgets(row.children@) + "]"@
    };
    "TableRow("@ + key_part + decoration_part + children_part + ")"@
}

impl TableRow {
    pub fn new(children: Vec<TableChild>) -> (r: TableRow)
        ensures
            r.key is None,
            r.decoration is None,
            r.children@ == children@,
    {
        TableRow { key: None, decoration: None, children }
    }

    pub fn with_key(self, key: u64) -> (r: Self)
        ensures
            r.key == Some(key),
            r.decoration == self.decoration,
            r.children@ == self.children@,
    {
        let mut row = self;
        row.key = Some(key);
        row
    }

    pub fn with_decoration(self, decoration: u64) -> (r: Self)
        ensures
            r.key == self.key,
            r.decoration == Some(decoration),
            r.children@ == self.children@,
    {
        let mut row = self;
        row.decoration = Some(decoration);
        row
    }

    /// Names what is there and says `no children` rather than printing an
    /// empty list.
    pub fn describe(&self) -> (r: String)
        ensures
            r@ == describe_row(*self),
    {
        let mut parts = String::new();
        append_str(&mut parts, "TableRow(");
        let ghost head = parts@;
        match self.key {
            Some(key) => {
                append_str(&mut parts, "[");
                push_decimal(&mut parts, key);
                append_str(&mut parts, "], ");
            },
            None => {},
        }
        let ghost with_key = parts@;
        match self.decoration {
            Some(decoration) => {
                push_decimal(&mut parts, decoration);
                append_str(&mut parts, ", ");
            },
            None => {},
        }
        let ghost with_decoration = parts@;
        if self.children.len() == 0 {
            append_str(&mut parts, "no children");
        } else {
            append_str(&mut parts, "[");
            let ghost open = parts@;
            let mut i: usize = 0;
            while i < self.children.len()
                invariant
                    i <= self.children@.len(),
                    self.children@.len() > 0,
                    parts@ == open + joined_widgets(self.children@.subrange(0, i as int)),
                decreases self.children@.len() - i,
            {
                let ghost before = parts@;
                if i > 0 {
                    append_str(&mut parts, ", ");
                }
                push_decimal(&mut parts, self.children[i].widget);
                proof {
                    let prefix = self.children@.subrange(0, i + 1);
                    assert(prefix.drop_last() =~= self.children@.subrange(0, i as int));
                    if i == 0 {
                        assert(joined_widgets(self.children@.subrange(0, 0)) =~= Seq::<
                            char,
                        >::empty());
                        assert(parts@ =~= open + joined_widgets(prefix));
                    } else {
                        assert(parts@ =~= open + joined_widgets(prefix));
                    }
                }
                i = i + 1;
            }
            proof {
                assert(self.children@.subrange(0, self.children@.len() as int) =~= self.children@);
            }
            append_str(&mut parts, "]");
        }
        append_str(&mut parts, ")");
        proof {
            let key_part = match self.key {
                Some(key) => "["@ + decimal(key as nat) + "], "@,
                None => Seq::<char>::empty(),
            };
            assert(with_key =~= head + key_part);
            let decoration_part = match self.decoration {
                Some(decoration) => decimal(decoration as nat) + ", "@,
                None => Seq::<char>::empty(),
            };
            assert(with_decoration =~= with_key + decoration_part);
            assert(parts@ =~= describe_row(*self));
        }
        parts
    }
}

/// What is wrong with a table, if anything.
#[derive(Clone, Copy, Debug, PartialEq, Eq, Structural)]
pub enum TableError {
    /// Baseline alignment was asked for without saying which baseline.
    BaselineAlignmentWithoutBaseline,
    /// Two keyed rows carry the same key.
    DuplicateRowKey(u64),
    /// The rows have different numbers of cells, so the table would contain
    /// holes.
    IrregularRowLengths,
    /// A row has no cells at all.
    EmptyRow,
    /// Two cells carry the same key, in the same row or not.
    DuplicateCellKey(u64),
}

/// The first key in `keys` that repeats an earlier one, reading left to
/// right.
pub open spec fn first_repeated_key(keys: Seq<Option<u64>>) -> Option<u64>
    decreases keys.len(),
{
    if keys.len() == 0 {
        None
    } else {
        match first_repeated_key(keys.drop_last()) {
            Some(key) => Some(key),
            None => match keys.last() {
                Some(key) => if keys.drop_last().contains(Some(key)) {
                    Some(key)
                } else {
                    None
                },
                None => None,
            },
        }
    }
}

/// The row keys, in order.
pub open spec fn row_keys(rows: Seq<TableRow>) -> Seq<Option<u64>> {
    rows.map_values(|row: TableRow| row.key)
}

/// The keys of a run of cells, in order.
pub open spec fn child_keys(children: Seq<TableChild>) -> Seq<Option<u64>> {
    children.map_values(|child: TableChild| child.key)
}

/// The keys of every cell of the table, row by row.
pub open spec fn cell_keys(rows: Seq<TableRow>) -> Seq<Option<u64>>
    decreases rows.len(),
{
    if rows.len() == 0 {
        Seq::empty()
    } else {
        cell_keys(rows.drop_last()) + child_keys(rows.last().children@)
    }
}

/// The widgets of every cell, in row-major order.
pub open spec fn flat_widgets(rows: Seq<TableRow>) -> Seq<u64>
    decreases rows.len(),
{
    if rows.len() == 0 {
        Seq::empty()
    } else {
        flat_widgets(rows.drop_last()) + rows.last().children@.map_values(
            |child: TableChild| child.widget,
        )
    }
}

/// Why a table with these rows and this alignment is refused, if it is: the
/// checks run in this order and the first that fails is the answer.
pub open spec fn table_error(
    rows: Seq<TableRow>,
    alignment: TableCellVerticalAlignment,
    baseline: Option<TextBaseline>,
) -> Option<TableError> {
    if alignment == TableCellVerticalAlignment::Baseline && baseline is None {
        Some(TableError::BaselineAlignmentWithoutBaseline)
    } else if first_repeated_key(row_keys(rows)) is Some {
        Some(TableError::DuplicateRowKey(first_repeated_key(row_keys(rows))->0))
    } else if rows.len() > 0 && exists|i: int|
        0 <= i < rows.len() && #[trigger] rows[i].children@.len() != rows[0].children@.len() {
        Some(TableError::IrregularRowLengths)
    } else if rows.len() > 0 && exists|i: int|
        0 <= i < rows.len() && #[trigger] rows[i].children@.len() == 0 {
        Some(TableError::EmptyRow)
    } else if first_repeated_key(cell_keys(rows)) is Some {
        Some(TableError::DuplicateCellKey(first_repeated_key(cell_keys(rows))->0))
    } else {
        None
    }
}

/// The row decorations a table keeps: none at all unless some row has one.
pub open spec fn kept_decorations(rows: Seq<TableRow>) -> Option<Seq<Option<u64>>> {
    if exists|i: int| 0 <= i < rows.len() && #[trigger] rows[i].decoration is Some {
        Some(rows.map_values(|row: TableRow| row.decoration))
    } else {
        None
    }
}

/// A table: rows of cells and the alignment a cell takes by default.
#[derive(Clone, Debug, PartialEq)]
pub struct Table {
    pub children: Vec<TableRow>,
    pub default_vertical_alignment: TableCellVerticalAlignment,
    pub text_baseline: Option<TextBaseline>,
    /// `None` unless some row has a decoration. Most tables have none, and a
    /// list of nulls per row is a list the painter would have to walk every
    /// frame to learn nothing.
    row_decorations: Option<Vec<Option<u64>>>,
}

/// What a table is, to its callers: its rows, the alignment a cell takes by
/// default, the baseline, and the row decorations it keeps.
pub struct TableView {
    pub rows: Seq<TableRow>,
    pub default_vertical_alignment: TableCellVerticalAlignment,
    pub text_baseline: Option<TextBaseline>,
    pub decorations: Option<Seq<Option<u64>>>,
}

impl View for Table {
    type V = TableView;

    closed spec fn view(&self) -> TableView {
        TableView {
            rows: self.children@,
            default_vertical_alignment: self.default_vertical_alignment,
            text_baseline: self.text_baseline,
            decorations: match self.row_decorations {
                Some(d) => Some(d@),
                None => None,
            },
        }
    }
}

impl Default for Table {
    fn default() -> (r: Table)
        ensures
            r@ == (TableView {
                rows: Seq::<TableRow>::empty(),
                default_vertical_alignment: TableCellVerticalAlignment::Top,
                text_baseline: None,
                decorations: None,
            }),
    {
        let r = Table {
            children: Vec::new(),
            default_vertical_alignment: TableCellVerticalAlignment::Top,
            text_baseline: None,
            row_decorations: None,
        };
        assert(r@.rows =~= Seq::<TableRow>::empty());
        r
    }
}

/// Whether `key` is among `keys`.
fn contains_key(keys: &Vec<u64>, key: u64) -> (r: bool)
    ensures
        r == keys@.contains(key),
{
    let mut i: usize = 0;
    while i < keys.len()
        invariant
            i <= keys@.len(),
            forall|j: int| 0 <= j < i ==> keys@[j] != key,
        decreases keys@.len() - i,
    {
        if keys[i] == key {
            return true;
        }
        i = i + 1;
    }
    false
}

/// The keys that are present in `keys`, in order, without the `None`s.
pub open spec fn present_keys(keys: Seq<Option<u64>>) -> Seq<u64>
    decreases keys.len(),
{
    if keys.len() == 0 {
        Seq::empty()
    } else {
        match keys.last() {
            Some(k) => present_keys(keys.drop_last()).push(k),
            None => present_keys(keys.drop_last()),
        }
    }
}

proof fn lemma_present_keys_contains(keys: Seq<Option<u64>>, k: u64)
    ensures
        present_keys(keys).contains(k) <==> keys.contains(Some(k)),
    decreases keys.len(),
{
    if keys.len() > 0 {
        let rest = keys.drop_last();
        lemma_present_keys_contains(rest, k);
        let p = present_keys(rest);
        if keys.contains(Some(k)) {
            let m = choose|m: int| 0 <= m < keys.len() && keys[m] == Some(k);
            if m < rest.len() {
                assert(rest[m] == Some(k));
            }
        }
        if rest.contains(Some(k)) {
            let m = choose|m: int| 0 <= m < rest.len() && rest[m] == Some(k);
            assert(keys[m] == Some(k));
        }
        if p.contains(k) {
            let j = choose|j: int| 0 <= j < p.len() && p[j] == k;
            assert(p.push(k)[j] == k);
        }
        match keys.last() {
            Some(x) => {
                if p.push(x).contains(k) {
                    let j = choose|j: int| 0 <= j < p.len() + 1 && p.push(x)[j] == k;
                    if j < p.len() {
                        assert(p[j] == k);
                    }
                }
                if p.contains(k) {
                    let j = choose|j: int| 0 <= j < p.len() && p[j] == k;
                    assert(p.push(x)[j] == k);
                }
                if x == k {
                    assert(p.push(x)[p.len() as int] == k);
                    assert(keys[keys.len() - 1] == Some(k));
                }
            },
            None => {},
        }
    }
}

proof fn lemma_first_repeated_push(keys: Seq<Option<u64>>, key: Option<u64>)
    requires
        first_repeated_key(keys) is None,
    ensures
        first_repeated_key(keys.push(key)) == (match key {
            Some(k) => if keys.contains(Some(k)) {
                Some(k)
            } else {
                None
            },
            None => None,
        }),
        present_keys(keys.push(key)) == (match key {
            Some(k) => present_keys(keys).push(k),
            None => present_keys(keys),
        }),
{
    assert(keys.push(key).drop_last() =~= keys);
}

/// A repeat found in a prefix stays the first repeat however the keys go on.
proof fn lemma_first_repeated_extend(front: Seq<Option<u64>>, back: Seq<Option<u64>>)
    requires
        first_repeated_key(front) is Some,
    ensures
        first_repeated_key(front + back) == first_repeated_key(front),
    decreases back.len(),
{
    if back.len() == 0 {
        assert(front + back =~= front);
    } else {
        lemma_first_repeated_extend(front, back.drop_last());
        assert((front + back).drop_last() =~= front + back.drop_last());
    }
}

proof fn lemma_cell_keys_append(a: Seq<TableRow>, b: Seq<TableRow>)
    ensures
        cell_keys(a + b) == cell_keys(a) + cell_keys(b),
    decreases b.len(),
{
    if b.len() == 0 {
        assert(a + b =~= a);
        assert(cell_keys(a) + cell_keys(b) =~= cell_keys(a));
    } else {
        lemma_cell_keys_append(a, b.drop_last());
        assert((a + b).drop_last() =~= a + b.drop_last());
        assert((a + b).last() == b.last());
        assert(cell_keys(a) + cell_keys(b) =~= cell_keys(a) + cell_keys(b.drop_last()) + child_keys(
            b.last().children@,
        ));
    }
}

/// The cell keys of the whole table, cut after cell `c` of row `row`.
proof fn lemma_cell_keys_cut(rows: Seq<TableRow>, row: int, c: int)
    requires
        0 <= row < rows.len(),
        0 <= c <= rows[row].children@.len(),
    ensures
        cell_keys(rows) == (cell_keys(rows.subrange(0, row)) + child_keys(
            rows[row].children@,
        ).subrange(0, c)) + (child_keys(rows[row].children@).subrange(
            c,
            rows[row].children@.len() as int,
        ) + cell_keys(rows.subrange(row + 1, rows.len() as int))),
{
    let ck = child_keys(rows[row].children@);
    let one = seq![rows[row]];
    let after = rows.subrange(row + 1, rows.len() as int);
    lemma_cell_keys_append(rows.subrange(0, row), one + after);
    assert(rows =~= rows.subrange(0, row) + (one + after));
    lemma_cell_keys_append(one, after);
    assert(one.drop_last() =~= Seq::<TableRow>::empty());
    assert(one.last() == rows[row]);
    assert(cell_keys(one.drop_last()) =~= Seq::<Option<u64>>::empty());
    assert(cell_keys(one) =~= ck);
    assert(ck =~= ck.subrange(0, c) + ck.subrange(c, ck.len() as int));
    assert(cell_keys(rows) =~= (cell_keys(rows.subrange(0, row)) + ck.subrange(0, c)) + (
    ck.subrange(c, ck.len() as int) + cell_keys(after)));
}

impl Table {
    /// A table with the default alignment, refused when the rows break a rule.
    pub fn new(children: Vec<TableRow>) -> (r: Result<Table, TableError>)
        ensures
            match r {
                Ok(table) => {
                    &&& table_error(children@, TableCellVerticalAlignment::Top, None) is None
                    &&& table@ == (TableView {
                        rows: children@,
                        default_vertical_alignment: TableCellVerticalAlignment::Top,
                        text_baseline: None,
                        decorations: kept_decorations(children@),
                    })
                },
                Err(error) => table_error(children@, TableCellVerticalAlignment::Top, None) == Some(
                    error,
                ),
            },
    {
        Table::with_alignment(children, TableCellVerticalAlignment::Top, None)
    }

    /// A table, refused when the rows break a rule; the checks run before the
    /// table exists, in the order `table_error` gives.
    pub fn with_alignment(
        children: Vec<TableRow>,
        default_vertical_alignment: TableCellVerticalAlignment,
        text_baseline: Option<TextBaseline>,
    ) -> (r: Result<Table, TableError>)
        ensures
            match r {
                Ok(table) => {
                    &&& table_error(children@, default_vertical_alignment, text_baseline) is None
                    &&& table@ == (TableView {
                        rows: children@,
                        default_vertical_alignment,
                        text_baseline,
                        decorations: kept_decorations(children@),
                    })
                },
                Err(error) => table_error(children@, default_vertical_alignment, text_baseline)
                    == Some(error),
            },
    {
        let ghost rows = children@;
        if default_vertical_alignment == TableCellVerticalAlignment::Baseline
            && text_baseline.is_none() {
            return Err(TableError::BaselineAlignmentWithoutBaseline);
        }
        // Row keys.
        let mut seen_row_keys: Vec<u64> = Vec::new();
        let mut i: usize = 0;
        while i < children.len()
            invariant
                rows == children@,
                !(default_vertical_alignment == TableCellVerticalAlignment::Baseline
                    && text_baseline is None),
                i <= rows.len(),
                first_repeated_key(row_keys(rows).subrange(0, i as int)) is None,
                seen_row_keys@ == present_keys(row_keys(rows).subrange(0, i as int)),
            decreases rows.len() - i,
        {
            let ghost prefix = row_keys(rows).subrange(0, i as int);
            proof {
                assert(row_keys(rows).subrange(0, i + 1) =~= prefix.push(rows[i as int].key));
                lemma_first_repeated_push(prefix, rows[i as int].key);
            }
            match children[i].key {
                Some(key) => {
                    proof {
                        lemma_present_keys_contains(prefix, key);
                    }
                    if contains_key(&seen_row_keys, key) {
                        proof {
                            let keys = row_keys(rows);
                            lemma_first_repeated_extend(
                                keys.subrange(0, i + 1),
                                keys.subrange(i + 1, keys.len() as int),
                            );
                            assert(keys =~= keys.subrange(0, i + 1) + keys.subrange(
                                i + 1,
                                keys.len() as int,
                            ));
                        }
                        return Err(TableError::DuplicateRowKey(key));
                    }
                    seen_row_keys.push(key);
                },
                None => {},
            }
            i = i + 1;
        }
        proof {
            assert(row_keys(rows).subrange(0, rows.len() as int) =~= row_keys(rows));
        }
        // Row widths.
        if children.len() > 0 {
            let cell_count = children[0].children.len();
            let mut r: usize = 0;
            while r < children.len()
                invariant
                    rows == children@,
                    !(default_vertical_alignment == TableCellVerticalAlignment::Baseline
                    && text_baseline is None),
                    first_repeated_key(row_keys(rows)) is None,
                    rows.len() > 0,
                    cell_count == rows[0].children@.len(),
                    r <= rows.len(),
                    forall|j: int| 0 <= j < r ==> #[trigger] rows[j].children@.len() == cell_count,
                decreases rows.len() - r,
            {
                if children[r].children.len() != cell_count {
                    proof {
                        assert(rows[r as int].children@.len() != rows[0].children@.len());
                    }
                    return Err(TableError::IrregularRowLengths);
                }
                r = r + 1;
            }
            let mut e: usize = 0;
            while e < children.len()
                invariant
                    rows == children@,
                    !(default_vertical_alignment == TableCellVerticalAlignment::Baseline
                    && text_baseline is None),
                    first_repeated_key(row_keys(rows)) is None,
                    rows.len() > 0,
                    forall|j: int|
                        0 <= j < rows.len() ==> #[trigger] rows[j].children@.len()
                            == rows[0].children@.len(),
                    e <= rows.len(),
                    forall|j: int| 0 <= j < e ==> #[trigger] rows[j].children@.len() != 0,
                decreases rows.len() - e,
            {
                if children[e].children.len() == 0 {
                    proof {
                        assert(rows[e as int].children@.len() == 0);
                    }
                    return Err(TableError::EmptyRow);
                }
                e = e + 1;
            }
        }
        // Cell keys, across the whole table.
        let mut seen_cell_keys: Vec<u64> = Vec::new();
        let mut row: usize = 0;
        while row < children.len()
            invariant
                rows == children@,
                !(default_vertical_alignment == TableCellVerticalAlignment::Baseline
                    && text_baseline is None),
                first_repeated_key(row_keys(rows)) is None,
                rows.len() > 0 ==> forall|j: int|
                    0 <= j < rows.len() ==> #[trigger] rows[j].children@.len()
                        == rows[0].children@.len(),
                rows.len() > 0 ==> forall|j: int|
                    0 <= j < rows.len() ==> #[trigger] rows[j].children@.len() != 0,
                row <= rows.len(),
                first_repeated_key(cell_keys(rows.subrange(0, row as int))) is None,
                seen_cell_keys@ == present_keys(cell_keys(rows.subrange(0, row as int))),
            decreases rows.len() - row,
        {
            let ghost before = cell_keys(rows.subrange(0, row as int));
            let cells = &children[row].children;
            let mut c: usize = 0;
            while c < cells.len()
                invariant
                    rows == children@,
                    !(default_vertical_alignment == TableCellVerticalAlignment::Baseline
                    && text_baseline is None),
                    first_repeated_key(row_keys(rows)) is None,
                    rows.len() > 0 ==> forall|j: int|
                    0 <= j < rows.len() ==> #[trigger] rows[j].children@.len()
                        == rows[0].children@.len(),
                rows.len() > 0 ==> forall|j: int|
                    0 <= j < rows.len() ==> #[trigger] rows[j].children@.len() != 0,
                    row < rows.len(),
                    cells@ == rows[row as int].children@,
                    c <= cells@.len(),
                    before == cell_keys(rows.subrange(0, row as int)),
                    first_repeated_key(before + child_keys(cells@).subrange(0, c as int)) is None,
                    seen_cell_keys@ == present_keys(
                        before + child_keys(cells@).subrange(0, c as int),
                    ),
                decreases cells@.len() - c,
            {
                let ghost prefix = before + child_keys(cells@).subrange(0, c as int);
                proof {
                    assert(before + child_keys(cells@).subrange(0, c + 1) =~= prefix.push(
                        cells@[c as int].key,
                    ));
                    lemma_first_repeated_push(prefix, cells@[c as int].key);
                }
                match cells[c].key {
                    Some(key) => {
                        proof {
                            lemma_present_keys_contains(prefix, key);
                        }
                        if contains_key(&seen_cell_keys, key) {
                            proof {
                                lemma_cell_keys_cut(rows, row as int, c + 1);
                                let ck = child_keys(cells@);
                                lemma_first_repeated_extend(
                                    before + ck.subrange(0, c + 1),
                                    ck.subrange(c + 1, ck.len() as int) + cell_keys(
                                        rows.subrange(row + 1, rows.len() as int),
                                    ),
                                );
                            }
                            return Err(TableError::DuplicateCellKey(key));
                        }
                        seen_cell_keys.push(key);
                    },
                    None => {},
                }
                c = c + 1;
            }
            proof {
                assert(child_keys(cells@).subrange(0, cells@.len() as int) =~= child_keys(cells@));
                assert(rows.subrange(0, row + 1).drop_last() =~= rows.subrange(0, row as int));
            }
            row = row + 1;
        }
        proof {
            assert(rows.subrange(0, rows.len() as int) =~= rows);
        }
        let row_decorations = decorations_of(&children);
        let table = Table { children, default_vertical_alignment, text_baseline, row_decorations };
        proof {
            assert(table@.rows == rows);
        }
        Ok(table)
    }

    /// The decoration of each row, or `None` when no row has one.
    pub fn row_decorations(&self) -> (r: Option<&[Option<u64>]>)
        ensures
            match r {
                Some(d) => self@.decorations == Some(d@),
                None => self@.decorations is None,
            },
    {
        match &self.row_decorations {
            Some(d) => Some(d.as_slice()),
            None => None,
        }
    }

    /// How many cells the first row has; zero for a table with no rows.
    pub fn column_count(&self) -> (r: usize)
        ensures
            r == (if self@.rows.len() == 0 {
                0
            } else {
                self@.rows[0].children@.len()
            }),
    {
        if self.children.len() == 0 {
            0
        } else {
            self.children[0].children.len()
        }
    }

    /// The cells in row-major order, which is the form the render object
    /// actually holds them in.
    pub fn flat_children(&self) -> (r: Vec<u64>)
        ensures
            r@ == flat_widgets(self@.rows),
    {
        let mut out: Vec<u64> = Vec::new();
        let mut row: usize = 0;
        while row < self.children.len()
            invariant
                row <= self.children@.len(),
                out@ == flat_widgets(self.children@.subrange(0, row as int)),
            decreases self.children@.len() - row,
        {
            let cells = &self.children[row].children;
            let ghost before = out@;
            let mut c: usize = 0;
            while c < cells.len()
                invariant
                    c <= cells@.len(),
                    out@ == before + cells@.subrange(0, c as int).map_values(
                        |child: TableChild| child.widget,
                    ),
                decreases cells@.len() - c,
            {
                out.push(cells[c].widget);
                c = c + 1;
                assert(out@ =~= before + cells@.subrange(0, c as int).map_values(
                    |child: TableChild| child.widget,
                ));
            }
            proof {
                assert(cells@.subrange(0, cells@.len() as int) =~= cells@);
                assert(self.children@.subrange(0, row + 1).drop_last() =~= self.children@.subrange(
                    0,
                    row as int,
                ));
            }
            row = row + 1;
        }
        proof {
            assert(self.children@.subrange(0, self.children@.len() as int) =~= self.children@);
        }
        out
    }
}

fn decorations_of(rows: &Vec<TableRow>) -> (r: Option<Vec<Option<u64>>>)
    ensures
        match r {
            Some(d) => kept_decorations(rows@) == Some(d@),
            None => kept_decorations(rows@) is None,
        },
{
    let mut any = false;
    let mut all: Vec<Option<u64>> = Vec::new();
    let mut i: usize = 0;
    while i < rows.len()
        invariant
            i <= rows@.len(),
            all@ == rows@.subrange(0, i as int).map_values(|row: TableRow| row.decoration),
            any == exists|j: int| 0 <= j < i && #[trigger] rows@[j].decoration is Some,
        decreases rows@.len() - i,
    {
        all.push(rows[i].decoration);
        if rows[i].decoration.is_some() {
            any = true;
        }
        i = i + 1;
        assert(all@ =~= rows@.subrange(0, i as int).map_values(|row: TableRow| row.decoration));
    }
    proof {
        assert(rows@.subrange(0, i as int) =~= rows@);
    }
    if any {
        Some(all)
    } else {
        None
    }
}

/// Per-cell configuration: the one thing a cell can say is how it sits in
/// its row.
///
/// A child of a row need **not** be wrapped in one. Wrapping is how a cell
/// overrides the table's default alignment, and nothing else.
#[derive(Clone, Copy, Debug, PartialEq, Eq, Structural)]
pub struct TableCell {
    /// `None` means "use the table's default", which is why the field is
    /// nullable rather than defaulting to `Top` here.
    pub vertical_alignment: Option<TableCellVerticalAlignment>,
}

impl Default for TableCell {
    fn default() -> (r: TableCell)
        ensures
            r.vertical_alignment is None,
    {
        TableCell { vertical_alignment: None }
    }
}

impl TableCell {
    pub fn new(vertical_alignment: Option<TableCellVerticalAlignment>) -> (r: TableCell)
        ensures
            r.vertical_alignment == vertical_alignment,
    {
        TableCell { vertical_alignment }
    }

    /// The alignment this cell ends up with, given the table's default.
    pub fn resolve(&self, table_default: TableCellVerticalAlignment) -> (r:
        TableCellVerticalAlignment)
        ensures
            r == (match self.vertical_alignment {
                Some(alignment) => alignment,
                None => table_default,
            }),
    {
        match self.vertical_alignment {
            Some(alignment) => alignment,
            None => table_default,
        }
    }

    /// Writes the cell's alignment into the parent data, and says whether the
    /// row has to be laid out again: only when the alignment changed, since a
    /// cell's alignment is decided against its row's height.
    pub fn apply_parent_data(&self, current: &mut Option<TableCellVerticalAlignment>) -> (r: bool)
        ensures
            *final(current) == self.vertical_alignment,
            r == (*old(current) != self.vertical_alignment),
    {
        if *current == self.vertical_alignment {
            return false;
        }
        *current = self.vertical_alignment;
        true
    }
}

/// A row of elements, as the element keeps them between builds.
#[derive(Clone, Debug, PartialEq, Eq)]
pub struct TableElementRow {
    pub key: Option<u64>,
    pub children: Vec<u64>,
}

/// A row of elements as the contracts see it.
pub struct ElementRowView {
    pub key: Option<u64>,
    pub children: Seq<u64>,
}

impl View for TableElementRow {
    type V = ElementRowView;

    open spec fn view(&self) -> ElementRowView {
        ElementRowView { key: self.key, children: self.children@ }
    }
}

/// What the row matcher holds: the element rows of the last build, the next
/// element id it will hand out, and every element it has let go of.
pub struct MatcherView {
    pub rows: Seq<ElementRowView>,
    pub next_element: u64,
    pub deactivated: Seq<u64>,
}

/// How many of `rows` carry no key.
pub open spec fn unkeyed_count(rows: Seq<TableRow>) -> nat
    decreases rows.len(),
{
    if rows.len() == 0 {
        0
    } else {
        unkeyed_count(rows.drop_last()) + if rows.last().key is None {
            1nat
        } else {
            0nat
        }
    }
}

/// The positions of the old rows that carry no key, in order.
pub open spec fn unkeyed_positions(rows: Seq<ElementRowView>) -> Seq<int>
    decreases rows.len(),
{
    if rows.len() == 0 {
        Seq::empty()
    } else if rows.last().key is None {
        unkeyed_positions(rows.drop_last()).push(rows.len() - 1)
    } else {
        unkeyed_positions(rows.drop_last())
    }
}

/// `p` is the first old row keyed `k`.
pub open spec fn is_first_with_key(rows: Seq<ElementRowView>, k: u64, p: int) -> bool {
    &&& 0 <= p < rows.len()
    &&& rows[p].key == Some(k)
    &&& forall|q: int| 0 <= q < p ==> #[trigger] rows[q].key != Some(k)
}

/// The first old row keyed `k`, if there is one.
pub open spec fn first_with_key(rows: Seq<ElementRowView>, k: u64) -> Option<int> {
    if exists|p: int| is_first_with_key(rows, k, p) {
        Some(choose|p: int| is_first_with_key(rows, k, p))
    } else {
        None
    }
}

/// The old row that new row `i` takes its elements from: for a keyed row the
/// first old row with its key, wherever it was; for an unkeyed row the old
/// unkeyed row at the same place among the unkeyed rows.
pub open spec fn matched_row(old: Seq<ElementRowView>, new: Seq<TableRow>, i: int) -> Option<int> {
    match new[i].key {
        Some(k) => first_with_key(old, k),
        None => {
            let rank = unkeyed_count(new.subrange(0, i));
            if rank < unkeyed_positions(old).len() {
                Some(unkeyed_positions(old)[rank as int])
            } else {
                None
            }
        },
    }
}

/// The elements new row `i` finds in its matched old row.
pub open spec fn inherited(old: Seq<ElementRowView>, new: Seq<TableRow>, i: int) -> Seq<u64> {
    match matched_row(old, new, i) {
        Some(p) => old[p].children,
        None => Seq::empty(),
    }
}

/// How many new elements row `i` needs beyond those it inherits.
pub open spec fn fresh_in_row(old: Seq<ElementRowView>, new: Seq<TableRow>, i: int) -> nat {
    if new[i].children@.len() > inherited(old, new, i).len() {
        (new[i].children@.len() - inherited(old, new, i).len()) as nat
    } else {
        0
    }
}

/// How many new elements the first `n` rows need.
pub open spec fn fresh_before(old: Seq<ElementRowView>, new: Seq<TableRow>, n: int) -> nat
    decreases n,
{
    if n <= 0 {
        0
    } else {
        fresh_before(old, new, n - 1) + fresh_in_row(old, new, n - 1)
    }
}

/// The elements of new row `i`: the inherited ones column by column, then
/// new ids handed out in order from `next`.
pub open spec fn rebuilt_children(
    old: Seq<ElementRowView>,
    new: Seq<TableRow>,
    next: u64,
    i: int,
) -> Seq<u64> {
    let kept = inherited(old, new, i);
    Seq::new(
        new[i].children@.len(),
        |col: int|
            if col < kept.len() {
                kept[col]
            } else {
                (next + fresh_before(old, new, i) + (col - kept.len())) as u64
            },
    )
}

/// The inherited elements of row `i` past its new width.
pub open spec fn dropped_cells(old: Seq<ElementRowView>, new: Seq<TableRow>, i: int) -> Seq<u64> {
    let kept = inherited(old, new, i);
    if kept.len() > new[i].children@.len() {
        kept.subrange(new[i].children@.len() as int, kept.len() as int)
    } else {
        Seq::empty()
    }
}

/// The elements dropped from the first `n` rows, row by row.
pub open spec fn dropped_before(old: Seq<ElementRowView>, new: Seq<TableRow>, n: int) -> Seq<u64>
    decreases n,
{
    if n <= 0 {
        Seq::empty()
    } else {
        dropped_before(old, new, n - 1) + dropped_cells(old, new, n - 1)
    }
}

/// The elements of the old rows at `positions`, one row after another.
pub open spec fn cells_of_rows(old: Seq<ElementRowView>, positions: Seq<int>) -> Seq<u64>
    decreases positions.len(),
{
    if positions.len() == 0 {
        Seq::empty()
    } else {
        cells_of_rows(old, positions.drop_last()) + old[positions.last()].children
    }
}

/// The elements of the old unkeyed rows that no new unkeyed row reached.
pub open spec fn leftover_unkeyed(old: Seq<ElementRowView>, new: Seq<TableRow>) -> Seq<u64> {
    let positions = unkeyed_positions(old);
    if unkeyed_count(new) < positions.len() {
        cells_of_rows(old, positions.subrange(unkeyed_count(new) as int, positions.len() as int))
    } else {
        Seq::empty()
    }
}

/// Old row `p` is claimed by one of the first `n` new rows through its key.
pub open spec fn claimed_by(old: Seq<ElementRowView>, new: Seq<TableRow>, n: int, p: int) -> bool {
    exists|j: int|
        0 <= j < n && #[trigger] new[j].key is Some && first_with_key(old, new[j].key->0) == Some(p)
}

/// The elements of the first `n` old keyed rows that no new row claimed.
pub open spec fn unclaimed_keyed(old: Seq<ElementRowView>, new: Seq<TableRow>, n: int) -> Seq<u64>
    decreases n,
{
    if n <= 0 {
        Seq::empty()
    } else if old[n - 1].key is Some && !claimed_by(old, new, new.len() as int, n - 1) {
        unclaimed_keyed(old, new, n - 1) + old[n - 1].children
    } else {
        unclaimed_keyed(old, new, n - 1)
    }
}

/// How many cells the first `n` rows hold.
pub open spec fn cells_before(rows: Seq<TableRow>, n: int) -> nat
    decreases n,
{
    if n <= 0 {
        0
    } else {
        cells_before(rows, n - 1) + rows[n - 1].children@.len()
    }
}

/// The matcher after a build against `new`.
pub open spec fn updated(matcher: MatcherView, new: Seq<TableRow>) -> MatcherView {
    let old = matcher.rows;
    MatcherView {
        rows: Seq::new(
            new.len(),
            |i: int|
                ElementRowView {
                    key: new[i].key,
                    children: rebuilt_children(old, new, matcher.next_element, i),
                },
        ),
        next_element: (matcher.next_element + fresh_before(old, new, new.len() as int)) as u64,
        deactivated: matcher.deactivated + dropped_before(old, new, new.len() as int)
            + leftover_unkeyed(old, new) + unclaimed_keyed(old, new, old.len() as int),
    }
}

/// **A keyed row is found wherever it moved to**: it takes over the elements
/// of the first old row with its key, column by column, as far as both reach.
pub proof fn lemma_keyed_row_keeps_its_elements(
    m: MatcherView,
    new: Seq<TableRow>,
    i: int,
    k: u64,
    p: int,
    col: int,
)
    requires
        0 <= i < new.len(),
        new[i].key == Some(k),
        first_with_key(m.rows, k) == Some(p),
        0 <= col < new[i].children@.len(),
        col < m.rows[p].children.len(),
    ensures
        updated(m, new).rows[i].children[col] == m.rows[p].children[col],
        updated(m, new).rows[i].key == Some(k),
{
}

proof fn lemma_unkeyed_count_after_keyed(extra: TableRow, rows: Seq<TableRow>)
    requires
        extra.key is Some,
    ensures
        unkeyed_count(seq![extra] + rows) == unkeyed_count(rows),
    decreases rows.len(),
{
    if rows.len() == 0 {
        assert(seq![extra] + rows =~= seq![extra]);
        assert(seq![extra].drop_last() =~= Seq::<TableRow>::empty());
        assert(seq![extra].last() == extra);
        assert(unkeyed_count(Seq::<TableRow>::empty()) == 0);
        assert(unkeyed_count(rows) == 0);
    } else {
        lemma_unkeyed_count_after_keyed(extra, rows.drop_last());
        assert((seq![extra] + rows).drop_last() =~= seq![extra] + rows.drop_last());
        assert((seq![extra] + rows).last() == rows.last());
    }
}

/// **Inserting a keyed row does not shift any unkeyed row's identity**:
/// keyed and unkeyed rows are matched from separate pools, so an unkeyed row
/// is matched with the same old row whether or not a keyed row is put in
/// front of it.
pub proof fn lemma_keyed_row_does_not_shift_unkeyed(
    old: Seq<ElementRowView>,
    new: Seq<TableRow>,
    extra: TableRow,
    i: int,
)
    requires
        extra.key is Some,
        0 <= i < new.len(),
        new[i].key is None,
    ensures
        matched_row(old, seq![extra] + new, i + 1) == matched_row(old, new, i),
{
    let longer = seq![extra] + new;
    assert(longer[i + 1] == new[i]);
    assert(longer.subrange(0, i + 1) =~= seq![extra] + new.subrange(0, i));
    lemma_unkeyed_count_after_keyed(extra, new.subrange(0, i));
}

proof fn lemma_contains_in_concat(a: Seq<u64>, b: Seq<u64>, x: u64)
    ensures
        (a.contains(x) || b.contains(x)) ==> (a + b).contains(x),
{
    if a.contains(x) {
        let i = choose|i: int| 0 <= i < a.len() && a[i] == x;
        assert((a + b)[i] == x);
    } else if b.contains(x) {
        let i = choose|i: int| 0 <= i < b.len() && b[i] == x;
        assert((a + b)[a.len() + i] == x);
    }
}

proof fn lemma_dropped_before_holds(
    old: Seq<ElementRowView>,
    new: Seq<TableRow>,
    n: int,
    j: int,
    x: u64,
)
    requires
        0 <= j < n,
        dropped_cells(old, new, j).contains(x),
    ensures
        dropped_before(old, new, n).contains(x),
    decreases n,
{
    if j < n - 1 {
        lemma_dropped_before_holds(old, new, n - 1, j, x);
    }
    lemma_contains_in_concat(dropped_before(old, new, n - 1), dropped_cells(old, new, n - 1), x);
}

proof fn lemma_unclaimed_holds(old: Seq<ElementRowView>, new: Seq<TableRow>, n: int, q: int, c: int)
    requires
        0 <= q < n <= old.len(),
        old[q].key is Some,
        !claimed_by(old, new, new.len() as int, q),
        0 <= c < old[q].children.len(),
    ensures
        unclaimed_keyed(old, new, n).contains(old[q].children[c]),
    decreases n,
{
    let x = old[q].children[c];
    if q < n - 1 {
        lemma_unclaimed_holds(old, new, n - 1, q, c);
    } else {
        assert(old[q].children[c] == x);
    }
    if old[n - 1].key is Some && !claimed_by(old, new, new.len() as int, n - 1) {
        lemma_contains_in_concat(unclaimed_keyed(old, new, n - 1), old[n - 1].children, x);
    }
}

proof fn lemma_cells_of_rows_holds(old: Seq<ElementRowView>, ps: Seq<int>, m: int, c: int)
    requires
        0 <= m < ps.len(),
        0 <= ps[m] < old.len(),
        0 <= c < old[ps[m]].children.len(),
    ensures
        cells_of_rows(old, ps).contains(old[ps[m]].children[c]),
    decreases ps.len(),
{
    let x = old[ps[m]].children[c];
    if m < ps.len() - 1 {
        assert(ps.drop_last()[m] == ps[m]);
        lemma_cells_of_rows_holds(old, ps.drop_last(), m, c);
    } else {
        assert(old[ps.last()].children[c] == x);
    }
    lemma_contains_in_concat(cells_of_rows(old, ps.drop_last()), old[ps.last()].children, x);
}

proof fn lemma_unkeyed_position_of(old: Seq<ElementRowView>, p: int) -> (r: int)
    requires
        0 <= p < old.len(),
        old[p].key is None,
    ensures
        0 <= r < unkeyed_positions(old).len(),
        unkeyed_positions(old)[r] == p,
    decreases old.len(),
{
    if p == old.len() - 1 {
        unkeyed_positions(old.drop_last()).len() as int
    } else {
        assert(old.drop_last()[p] == old[p]);
        lemma_unkeyed_position_of(old.drop_last(), p)
    }
}

proof fn lemma_unkeyed_rank_reached(new: Seq<TableRow>, r: nat) -> (j: int)
    requires
        r < unkeyed_count(new),
    ensures
        0 <= j < new.len(),
        new[j].key is None,
        unkeyed_count(new.subrange(0, j)) == r,
    decreases new.len(),
{
    let rest = new.drop_last();
    if r < unkeyed_count(rest) {
        let j = lemma_unkeyed_rank_reached(rest, r);
        assert(rest.subrange(0, j) =~= new.subrange(0, j));
        j
    } else {
        assert(new.subrange(0, new.len() - 1) =~= rest);
        new.len() - 1
    }
}

/// Whether element `x` is in some row after a rebuild against `new`.
pub open spec fn held_after(m: MatcherView, new: Seq<TableRow>, x: u64) -> bool {
    exists|i: int, c: int|
        0 <= i < new.len() && 0 <= c < new[i].children@.len() && #[trigger] updated(
            m,
            new,
        ).rows[i].children[c] == x
}

proof fn lemma_inherits_or_drops(m: MatcherView, new: Seq<TableRow>, j: int, p: int, col: int)
    requires
        0 <= j < new.len(),
        matched_row(m.rows, new, j) == Some(p),
        0 <= p < m.rows.len(),
        0 <= col < m.rows[p].children.len(),
    ensures
        held_after(m, new, m.rows[p].children[col]) || updated(m, new).deactivated.contains(
            m.rows[p].children[col],
        ),
{
    let old = m.rows;
    let x = old[p].children[col];
    let w = new[j].children@.len();
    if col < w {
        assert(updated(m, new).rows[j].children[col] == x);
    } else {
        assert(dropped_cells(old, new, j)[col - w] == x);
        lemma_dropped_before_holds(old, new, new.len() as int, j, x);
        let n = new.len() as int;
        lemma_contains_in_concat(m.deactivated, dropped_before(old, new, n), x);
        lemma_contains_in_concat(
            m.deactivated + dropped_before(old, new, n),
            leftover_unkeyed(old, new),
            x,
        );
        lemma_contains_in_concat(
            m.deactivated + dropped_before(old, new, n) + leftover_unkeyed(old, new),
            unclaimed_keyed(old, new, old.len() as int),
            x,
        );
    }
}

/// **No element is lost in a rebuild**: every element the matcher held
/// before is, afterwards, in one of the new rows or among those it let go of.
pub proof fn lemma_no_element_is_lost(m: MatcherView, new: Seq<TableRow>, p: int, col: int)
    requires
        0 <= p < m.rows.len(),
        0 <= col < m.rows[p].children.len(),
    ensures
        held_after(m, new, m.rows[p].children[col]) || updated(m, new).deactivated.contains(
            m.rows[p].children[col],
        ),
{
    let old = m.rows;
    let x = old[p].children[col];
    let n = new.len() as int;
    let front = m.deactivated + dropped_before(old, new, n);
    if old[p].key is Some {
        if claimed_by(old, new, n, p) {
            let j = choose|j: int|
                0 <= j < n && #[trigger] new[j].key is Some && first_with_key(old, new[j].key->0)
                    == Some(p);
            lemma_inherits_or_drops(m, new, j, p, col);
        } else {
            lemma_unclaimed_holds(old, new, old.len() as int, p, col);
            lemma_contains_in_concat(
                front + leftover_unkeyed(old, new),
                unclaimed_keyed(old, new, old.len() as int),
                x,
            );
        }
    } else {
        let r = lemma_unkeyed_position_of(old, p);
        if r < unkeyed_count(new) {
            let j = lemma_unkeyed_rank_reached(new, r as nat);
            lemma_inherits_or_drops(m, new, j, p, col);
        } else {
            let ps = unkeyed_positions(old);
            let start = unkeyed_count(new) as int;
            let tail = ps.subrange(start, ps.len() as int);
            assert(tail[r - start] == p);
            lemma_cells_of_rows_holds(old, tail, r - start, col);
            lemma_contains_in_concat(front, leftover_unkeyed(old, new), x);
            lemma_contains_in_concat(
                front + leftover_unkeyed(old, new),
                unclaimed_keyed(old, new, old.len() as int),
                x,
            );
        }
    }
}

/// Matches the rows of a new build against those of the last one.
///
/// Keyed and unkeyed rows are matched from **two separate pools**, which is
/// the design: a keyed row is looked up by key wherever it moved to, and an
/// unkeyed row is matched **positionally against the sequence of old unkeyed
/// rows only**. An unkeyed row is therefore never matched against a keyed one,
/// so inserting a keyed row at the top does not shift every unkeyed row's
/// identity by one.
#[derive(Clone, Debug, PartialEq)]
pub struct TableRowMatcher {
    rows: Vec<TableElementRow>,
    next_element: u64,
    deactivated: Vec<u64>,
}

impl View for TableRowMatcher {
    type V = MatcherView;

    closed spec fn view(&self) -> MatcherView {
        MatcherView {
            rows: self.rows@.map_values(|row: TableElementRow| row@),
            next_element: self.next_element,
            deactivated: self.deactivated@,
        }
    }
}

impl Default for TableRowMatcher {
    fn default() -> (r: TableRowMatcher)
        ensures
            r@ == (MatcherView {
                rows: Seq::empty(),
                next_element: 0,
                deactivated: Seq::empty(),
            }),
    {
        let r = TableRowMatcher { rows: Vec::new(), next_element: 0, deactivated: Vec::new() };
        assert(r@.rows =~= Seq::<ElementRowView>::empty());
        r
    }
}

proof fn lemma_first_with_key(rows: Seq<ElementRowView>, k: u64, p: int)
    requires
        is_first_with_key(rows, k, p),
    ensures
        first_with_key(rows, k) == Some(p),
{
    let q = choose|q: int| is_first_with_key(rows, k, q);
    assert(is_first_with_key(rows, k, q));
    if q < p {
        assert(rows[q].key != Some(k));
    }
    if p < q {
        assert(rows[p].key != Some(k));
    }
}

proof fn lemma_unkeyed_positions(rows: Seq<ElementRowView>)
    ensures
        forall|m: int|
            0 <= m < unkeyed_positions(rows).len() ==> 0 <= #[trigger] unkeyed_positions(rows)[m]
                < rows.len() && rows[unkeyed_positions(rows)[m]].key is None,
    decreases rows.len(),
{
    if rows.len() > 0 {
        lemma_unkeyed_positions(rows.drop_last());
    }
}

proof fn lemma_fresh_bounded(old: Seq<ElementRowView>, new: Seq<TableRow>, n: int)
    requires
        0 <= n <= new.len(),
    ensures
        fresh_before(old, new, n) <= cells_before(new, n),
        cells_before(new, n) <= cells_before(new, new.len() as int),
{
    lemma_fresh_below_cells(old, new, n);
    lemma_cells_before_grows(new, n);
}

proof fn lemma_fresh_below_cells(old: Seq<ElementRowView>, new: Seq<TableRow>, n: int)
    requires
        0 <= n <= new.len(),
    ensures
        fresh_before(old, new, n) <= cells_before(new, n),
    decreases n,
{
    if n > 0 {
        lemma_fresh_below_cells(old, new, n - 1);
    }
}

proof fn lemma_cells_before_grows(rows: Seq<TableRow>, n: int)
    requires
        0 <= n <= rows.len(),
    ensures
        cells_before(rows, n) <= cells_before(rows, rows.len() as int),
    decreases rows.len() - n,
{
    if n < rows.len() {
        lemma_cells_before_grows(rows, n + 1);
    }
}

/// The first old row keyed `k`.
fn find_keyed(rows: &Vec<TableElementRow>, k: u64) -> (r: Option<usize>)
    ensures
        match r {
            Some(p) => first_with_key(rows@.map_values(|row: TableElementRow| row@), k) == Some(
                p as int,
            ),
            None => first_with_key(rows@.map_values(|row: TableElementRow| row@), k) is None,
        },
{
    let ghost old = rows@.map_values(|row: TableElementRow| row@);
    let mut p: usize = 0;
    while p < rows.len()
        invariant
            old == rows@.map_values(|row: TableElementRow| row@),
            p <= rows@.len(),
            forall|q: int| 0 <= q < p ==> #[trigger] old[q].key != Some(k),
        decreases rows@.len() - p,
    {
        if rows[p].key == Some(k) {
            proof {
                lemma_first_with_key(old, k, p as int);
            }
            return Some(p);
        }
        p = p + 1;
    }
    proof {
        if exists|p: int| is_first_with_key(old, k, p) {
            let q = choose|q: int| is_first_with_key(old, k, q);
            assert(old[q].key != Some(k));
        }
    }
    None
}

/// The positions of the rows that carry no key.
fn unkeyed_positions_of(rows: &Vec<TableElementRow>) -> (r: Vec<usize>)
    ensures
        r@.map_values(|p: usize| p as int) == unkeyed_positions(
            rows@.map_values(|row: TableElementRow| row@),
        ),
{
    let ghost old = rows@.map_values(|row: TableElementRow| row@);
    let mut out: Vec<usize> = Vec::new();
    let mut p: usize = 0;
    while p < rows.len()
        invariant
            old == rows@.map_values(|row: TableElementRow| row@),
            p <= rows@.len(),
            out@.map_values(|q: usize| q as int) == unkeyed_positions(old.subrange(0, p as int)),
        decreases rows@.len() - p,
    {
        proof {
            assert(old.subrange(0, p + 1).drop_last() =~= old.subrange(0, p as int));
        }
        if rows[p].key.is_none() {
            out.push(p);
        }
        p = p + 1;
        assert(out@.map_values(|q: usize| q as int) =~= unkeyed_positions(
            old.subrange(0, p as int),
        ));
    }
    proof {
        assert(old.subrange(0, p as int) =~= old);
    }
    out
}

/// Appends `cells[from..]` to `out`; nothing when `from` is past the end.
fn append_from(out: &mut Vec<u64>, cells: &Vec<u64>, from: usize)
    ensures
        final(out)@ == old(out)@ + (if from < cells@.len() {
            cells@.subrange(from as int, cells@.len() as int)
        } else {
            Seq::empty()
        }),
{
    let ghost start = out@;
    let mut g: usize = from;
    while g < cells.len()
        invariant
            from <= g,
            from < cells@.len() ==> g <= cells@.len(),
            from < cells@.len() ==> out@ == start + cells@.subrange(from as int, g as int),
            from >= cells@.len() ==> out@ == start,
        decreases cells@.len() - g,
    {
        out.push(cells[g]);
        g = g + 1;
        assert(out@ =~= start + cells@.subrange(from as int, g as int));
    }
    proof {
        if from < cells@.len() {
            assert(g == cells@.len());
        } else {
            assert(out@ =~= start + Seq::<u64>::empty());
        }
    }
}

impl TableRowMatcher {
    pub fn new() -> (r: TableRowMatcher)
        ensures
            r@ == (MatcherView {
                rows: Seq::empty(),
                next_element: 1,
                deactivated: Seq::empty(),
            }),
    {
        let r = TableRowMatcher { rows: Vec::new(), next_element: 1, deactivated: Vec::new() };
        assert(r@.rows =~= Seq::<ElementRowView>::empty());
        r
    }

    /// The element rows of the last build.
    pub fn rows(&self) -> (r: &[TableElementRow])
        ensures
            r@.map_values(|row: TableElementRow| row@) == self@.rows,
    {
        self.rows.as_slice()
    }

    /// Every element the matcher has let go of, in the order it let go.
    pub fn deactivated(&self) -> (r: &[u64])
        ensures
            r@ == self@.deactivated,
    {
        self.deactivated.as_slice()
    }

    /// Builds or rebuilds against `table`.
    pub fn update(&mut self, table: &Table)
        requires
            old(self)@.next_element + cells_before(table@.rows, table@.rows.len() as int)
                <= u64::MAX,
        ensures
            final(self)@ == updated(old(self)@, table@.rows),
    {
        let ghost v0 = self@;
        let ghost new = table@.rows;
        let mut old_rows: Vec<TableElementRow> = Vec::new();
        std::mem::swap(&mut old_rows, &mut self.rows);
        let mut deact: Vec<u64> = Vec::new();
        std::mem::swap(&mut deact, &mut self.deactivated);
        let mut next: u64 = self.next_element;
        let ghost old = old_rows@.map_values(|row: TableElementRow| row@);
        assert(old == v0.rows);
        let unkeyed_pos = unkeyed_positions_of(&old_rows);
        proof {
            lemma_unkeyed_positions(old);
        }
        let mut claimed: Vec<bool> = Vec::new();
        let mut c: usize = 0;
        while c < old_rows.len()
            invariant
                c <= old_rows@.len(),
                claimed@.len() == c,
                forall|q: int| 0 <= q < c ==> !#[trigger] claimed@[q],
            decreases old_rows@.len() - c,
        {
            claimed.push(false);
            c = c + 1;
        }
        let mut unkeyed_seen: usize = 0;
        let mut new_rows: Vec<TableElementRow> = Vec::new();
        let mut i: usize = 0;
        while i < table.children.len()
            invariant
                new == table.children@,
                old == old_rows@.map_values(|row: TableElementRow| row@),
                unkeyed_pos@.map_values(|p: usize| p as int) == unkeyed_positions(old),
                forall|m: int|
                    0 <= m < unkeyed_positions(old).len() ==> 0 <= #[trigger] unkeyed_positions(
                        old,
                    )[m] < old.len() && old[unkeyed_positions(old)[m]].key is None,
                v0.next_element + cells_before(new, new.len() as int) <= u64::MAX,
                i <= new.len(),
                unkeyed_seen == unkeyed_count(new.subrange(0, i as int)),
                unkeyed_seen <= i,
                next == v0.next_element + fresh_before(old, new, i as int),
                deact@ == v0.deactivated + dropped_before(old, new, i as int),
                claimed@.len() == old.len(),
                forall|q: int|
                    0 <= q < old.len() ==> (#[trigger] claimed@[q] <==> claimed_by(
                        old,
                        new,
                        i as int,
                        q,
                    )),
                new_rows@.len() == i,
                forall|j: int|
                    0 <= j < i ==> (#[trigger] new_rows@[j])@ == (ElementRowView {
                        key: new[j].key,
                        children: rebuilt_children(old, new, v0.next_element, j),
                    }),
            decreases new.len() - i,
        {
            let row = &table.children[i];
            let width = row.children.len();
            let ghost claimed_before = claimed@;
            let src: Option<usize> = match row.key {
                Some(k) => {
                    let found = find_keyed(&old_rows, k);
                    match found {
                        Some(p) => {
                            claimed.set(p, true);
                        },
                        None => {},
                    }
                    found
                },
                None => {
                    let s = if unkeyed_seen < unkeyed_pos.len() {
                        Some(unkeyed_pos[unkeyed_seen])
                    } else {
                        None
                    };
                    unkeyed_seen = unkeyed_seen + 1;
                    s
                },
            };
            proof {
                assert(new.subrange(0, i + 1).drop_last() =~= new.subrange(0, i as int));
                match src {
                    Some(p) => assert(matched_row(old, new, i as int) == Some(p as int)),
                    None => assert(matched_row(old, new, i as int) is None),
                }
                assert forall|q: int| 0 <= q < old.len() implies (#[trigger] claimed@[q]
                    <==> claimed_by(old, new, i + 1, q)) by {
                    if claimed_by(old, new, i as int, q) {
                        let j = choose|j: int|
                            0 <= j < i && #[trigger] new[j].key is Some && first_with_key(
                                old,
                                new[j].key->0,
                            ) == Some(q);
                        assert(0 <= j < i + 1 && new[j].key is Some);
                    }
                    if claimed_by(old, new, i + 1, q) {
                        let j = choose|j: int|
                            0 <= j < i + 1 && #[trigger] new[j].key is Some && first_with_key(
                                old,
                                new[j].key->0,
                            ) == Some(q);
                        if j < i {
                            assert(claimed_by(old, new, i as int, q));
                        }
                    }
                    if new[i as int].key is Some && first_with_key(old, new[i as int].key->0)
                        == Some(q) {
                        assert(claimed_by(old, new, i + 1, q));
                    }
                }
            }
            let ghost kept = inherited(old, new, i as int);
            let kept_len: usize = match src {
                Some(p) => old_rows[p].children.len(),
                None => 0,
            };
            let mut children: Vec<u64> = Vec::new();
            let mut col: usize = 0;
            proof {
                lemma_fresh_bounded(old, new, i as int);
                lemma_fresh_bounded(old, new, i + 1);
            }
            while col < width
                invariant
                    new == table.children@,
                    old == old_rows@.map_values(|row: TableElementRow| row@),
                    i < new.len(),
                    width == new[i as int].children@.len(),
                    kept == inherited(old, new, i as int),
                    kept_len == kept.len(),
                    match src {
                        Some(p) => p < old.len() && kept == old[p as int].children,
                        None => kept == Seq::<u64>::empty(),
                    },
                    v0.next_element + fresh_before(old, new, i as int) + fresh_in_row(
                        old,
                        new,
                        i as int,
                    ) <= u64::MAX,
                    col <= width,
                    children@.len() == col,
                    forall|x: int|
                        0 <= x < col ==> #[trigger] children@[x] == rebuilt_children(
                            old,
                            new,
                            v0.next_element,
                            i as int,
                        )[x],
                    next == v0.next_element + fresh_before(old, new, i as int) + (if col
                        > kept_len {
                        col - kept_len
                    } else {
                        0
                    }),
                decreases width - col,
            {
                if col < kept_len {
                    match src {
                        Some(p) => {
                            children.push(old_rows[p].children[col]);
                        },
                        None => {},
                    }
                } else {
                    children.push(next);
                    next = next + 1;
                }
                col = col + 1;
            }
            match src {
                Some(p) => {
                    append_from(&mut deact, &old_rows[p].children, width);
                },
                None => {
                    assert(v0.deactivated + dropped_before(old, new, i + 1) =~= deact@);
                },
            }
            proof {
                assert(v0.deactivated + dropped_before(old, new, i + 1) =~= deact@);
            }
            let ghost built = children@;
            new_rows.push(TableElementRow { key: row.key, children });
            proof {
                assert(built =~= rebuilt_children(old, new, v0.next_element, i as int));
            }
            i = i + 1;
        }
        // The old unkeyed rows the new table did not reach.
        if unkeyed_seen < unkeyed_pos.len() {
            let ghost base = deact@;
            let ghost positions = unkeyed_positions(old);
            let mut u: usize = unkeyed_seen;
            while u < unkeyed_pos.len()
                invariant
                    old == old_rows@.map_values(|row: TableElementRow| row@),
                    unkeyed_pos@.map_values(|p: usize| p as int) == positions,
                    forall|m: int|
                        0 <= m < positions.len() ==> 0 <= #[trigger] positions[m] < old.len(),
                    unkeyed_seen <= u <= positions.len(),
                    deact@ == base + cells_of_rows(
                        old,
                        positions.subrange(unkeyed_seen as int, u as int),
                    ),
                decreases positions.len() - u,
            {
                let p = unkeyed_pos[u];
                proof {
                    assert(positions[u as int] == p as int);
                }
                append_from(&mut deact, &old_rows[p].children, 0);
                proof {
                    assert(positions.subrange(unkeyed_seen as int, u + 1).drop_last()
                        =~= positions.subrange(unkeyed_seen as int, u as int));
                    assert(old_rows@[p as int].children@.subrange(
                        0,
                        old_rows@[p as int].children@.len() as int,
                    ) =~= old[p as int].children);
                    assert(deact@ =~= base + cells_of_rows(
                        old,
                        positions.subrange(unkeyed_seen as int, u + 1),
                    ));
                }
                u = u + 1;
            }
        }
        let ghost base2 = deact@;
        proof {
            assert(new.subrange(0, new.len() as int) =~= new);
            assert(base2 =~= v0.deactivated + dropped_before(old, new, new.len() as int)
                + leftover_unkeyed(old, new));
        }
        // Keyed rows nothing claimed.
        let mut p: usize = 0;
        while p < old_rows.len()
            invariant
                new == table.children@,
                old == old_rows@.map_values(|row: TableElementRow| row@),
                claimed@.len() == old.len(),
                forall|q: int|
                    0 <= q < old.len() ==> (#[trigger] claimed@[q] <==> claimed_by(
                        old,
                        new,
                        new.len() as int,
                        q,
                    )),
                p <= old.len(),
                deact@ == base2 + unclaimed_keyed(old, new, p as int),
            decreases old.len() - p,
        {
            if old_rows[p].key.is_some() && !claimed[p] {
                append_from(&mut deact, &old_rows[p].children, 0);
                proof {
                    assert(old_rows@[p as int].children@.subrange(
                        0,
                        old_rows@[p as int].children@.len() as int,
                    ) =~= old[p as int].children);
                    assert(deact@ =~= base2 + unclaimed_keyed(old, new, p + 1));
                }
            }
            p = p + 1;
        }
        self.rows = new_rows;
        self.next_element = next;
        self.deactivated = deact;
        proof {
            assert(self@.rows =~= updated(v0, new).rows);
        }
    }
}

} // verus!

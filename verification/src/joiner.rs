//! The annotation joiner: reference tables keyed by one of their columns,
//! and the report that joins the count records of an artifact against one.

use vstd::prelude::*;
use vstd::string::*;
use crate::error::PipelineError;
use crate::text::{
    count_char, count_of, ends_with, find_char, has_suffix, index_of, join, joined,
    lemma_index_found, views,
};

verus! {

/// The two reference tables.
#[derive(Debug, Clone, Copy, PartialEq, Eq, Structural)]
pub enum TableKind {
    Kegg,
    Pfam,
}

/// The error type of the `csv` crate, carried through unread.
#[verifier::external_type_specification]
#[verifier::external_body]
pub struct ExCsvError(csv::Error);

/// The byte that separates the fields of an annotation file.
pub const TAB: u8 = 9;

/// The records that the `csv` crate reads from `data` with the given
/// delimiter, the first line as a record like the others; `None` where it
/// reports an error.
pub uninterp spec fn delimited_rows(data: Seq<u8>, delimiter: u8) -> Option<Seq<Seq<Seq<char>>>>;

/// The views of the rows of a grid of strings.
pub open spec fn grid_view(rows: Seq<Vec<String>>) -> Seq<Seq<Seq<char>>> {
    Seq::new(rows.len(), |i: int| views(rows[i]@))
}

/// Whether every row is as long as the first.
pub open spec fn rectangular(grid: Seq<Seq<Seq<char>>>) -> bool {
    forall|i: int| 0 <= i < grid.len() ==> (#[trigger] grid[i]).len() == grid[0].len()
}

/// The first row of a grid, or no columns where the grid is empty.
pub open spec fn header_of(grid: Seq<Seq<Seq<char>>>) -> Seq<Seq<char>> {
    if grid.len() == 0 {
        Seq::empty()
    } else {
        grid[0]
    }
}

/// The last column named `name`, or -1 if there is none.
pub open spec fn column_of(header: Seq<Seq<char>>, name: Seq<char>) -> int
    decreases header.len(),
{
    if header.len() == 0 {
        -1
    } else if header.last() == name {
        header.len() - 1
    } else {
        column_of(header.drop_last(), name)
    }
}

/// The last row that holds `id` in column `col`, or -1 if there is none.
pub open spec fn row_of(rows: Seq<Seq<Seq<char>>>, col: int, id: Seq<char>) -> int
    decreases rows.len(),
{
    if rows.len() == 0 {
        -1
    } else if 0 <= col < rows.last().len() && rows.last()[col] == id {
        rows.len() - 1
    } else {
        row_of(rows.drop_last(), col, id)
    }
}

/// The table type of a counts artifact, by the end of its name.
pub open spec fn table_kind_of(name: Seq<char>) -> Option<TableKind> {
    if has_suffix(name, ".pfam28.counts"@) {
        Some(TableKind::Pfam)
    } else if has_suffix(name, ".kegg.counts"@) {
        Some(TableKind::Kegg)
    } else {
        None
    }
}

/// The column by which a table is keyed.
pub open spec fn key_name_of(kind: TableKind) -> Seq<char> {
    match kind {
        TableKind::Kegg => "kegg_annotation_id"@,
        TableKind::Pfam => "accession"@,
    }
}

/// The file that holds a table, below the annotation directory.
pub open spec fn file_name_of(kind: TableKind) -> Seq<char> {
    match kind {
        TableKind::Kegg => "kegg_annotation.tab"@,
        TableKind::Pfam => "pfam_annotation.tab"@,
    }
}

/// The columns of a table that a report row carries, in the row's order.
pub open spec fn field_names_of(kind: TableKind) -> Seq<Seq<char>> {
    match kind {
        TableKind::Kegg => seq!["name"@, "definition"@, "pathway"@, "module"@],
        TableKind::Pfam => seq!["identifier"@, "name"@],
    }
}

/// The column titles of a report.
pub open spec fn report_header_of(kind: TableKind) -> Seq<Seq<char>> {
    match kind {
        TableKind::Kegg => seq![
            "kegg_id"@,
            "count"@,
            "name"@,
            "definition"@,
            "pathway"@,
            "module"@,
        ],
        TableKind::Pfam => seq!["pfam_id"@, "count"@, "identifier"@, "name"@],
    }
}

/// The values of `row` in the columns named `names`.
pub open spec fn lookups(header: Seq<Seq<char>>, row: Seq<Seq<char>>, names: Seq<Seq<char>>) -> Seq<
    Seq<char>,
> {
    Seq::new(names.len(), |i: int| row[column_of(header, names[i])])
}

/// A reference table: its column names, and its rows in the order of the
/// file. Where several rows hold the same key, the last one counts; where
/// several columns have the same name, the last one counts.
#[derive(Debug)]
pub struct AnnotationTable {
    header: Vec<String>,
    rows: Vec<Vec<String>>,
    key_column: Option<usize>,
}

impl AnnotationTable {
    /// The column names.
    pub closed spec fn header(&self) -> Seq<Seq<char>> {
        views(self.header@)
    }

    /// The rows that can be looked up.
    pub closed spec fn rows(&self) -> Seq<Seq<Seq<char>>> {
        grid_view(self.rows@)
    }

    /// The column that holds the key, or -1 where the table has no such
    /// column.
    pub closed spec fn key_column(&self) -> int {
        match self.key_column {
            Some(c) => c as int,
            None => -1,
        }
    }

    /// Every row has a value for every column, and rows exist only where
    /// the key column does. This holds of every table there is.
    #[verifier::type_invariant]
    pub closed spec fn wf(&self) -> bool {
        &&& forall|i: int|
            0 <= i < self.rows().len() ==> (#[trigger] self.rows()[i]).len() == self.header().len()
        &&& -1 <= self.key_column() < self.header().len()
        &&& self.rows().len() > 0 ==> 0 <= self.key_column()
    }

    /// Whether this is the table that `grid` describes, keyed by the column
    /// `key`: the first row names the columns, and the other rows can be
    /// looked up if the key column exists.
    pub open spec fn holds(&self, grid: Seq<Seq<Seq<char>>>, key: Seq<char>) -> bool {
        &&& self.wf()
        &&& self.header() == header_of(grid)
        &&& self.key_column() == column_of(header_of(grid), key)
        &&& self.rows() == if column_of(header_of(grid), key) >= 0 {
            grid.skip(1)
        } else {
            Seq::empty()
        }
    }

    /// Whether the table has every column that a report of `kind` carries.
    pub open spec fn supports(&self, kind: TableKind) -> bool {
        forall|i: int|
            0 <= i < field_names_of(kind).len() ==> column_of(
                self.header(),
                #[trigger] field_names_of(kind)[i],
            ) >= 0
    }

    /// The report row for one line of a counts artifact: none unless the
    /// line has exactly two fields and the table holds the first as a key;
    /// else the identifier, the count and the table's fields, tab-separated.
    pub open spec fn row_for(&self, kind: TableKind, line: Seq<char>) -> Option<Seq<char>> {
        if count_of(line, ',') != 1 {
            None
        } else {
            let k = index_of(line, ',');
            let id = line.take(k);
            let count = line.skip(k + 1);
            let r = row_of(self.rows(), self.key_column(), id);
            if r < 0 {
                None
            } else {
                Some(
                    joined(
                        seq![id, count] + lookups(
                            self.header(),
                            self.rows()[r],
                            field_names_of(kind),
                        ),
                        "\t"@,
                    ),
                )
            }
        }
    }

    /// Whether some row of the table holds `id` as its key.
    pub open spec fn has_key(&self, id: Seq<char>) -> bool {
        exists|r: int|
            0 <= r < self.rows().len() && 0 <= self.key_column() < (#[trigger] self.rows()[r]).len()
                && self.rows()[r][self.key_column()] == id
    }

    /// The report rows for the lines of a counts artifact, in their order.
    pub open spec fn report_rows(&self, kind: TableKind, lines: Seq<Seq<char>>) -> Seq<Seq<char>>
        decreases lines.len(),
    {
        if lines.len() == 0 {
            Seq::empty()
        } else {
            let head = self.report_rows(kind, lines.drop_last());
            match self.row_for(kind, lines.last()) {
                Some(row) => head.push(row),
                None => head,
            }
        }
    }

    /// The whole report: the title line, then the rows.
    pub open spec fn report_of(&self, kind: TableKind, lines: Seq<Seq<char>>) -> Seq<Seq<char>> {
        seq![joined(report_header_of(kind), "\t"@)] + self.report_rows(kind, lines)
    }

    /// Builds the table that `grid` describes, keyed by the column `key`.
    /// A grid with rows of unequal length is refused.
    pub fn from_rows(grid: Vec<Vec<String>>, key: &str) -> (r: Result<
        AnnotationTable,
        PipelineError,
    >)
        ensures
            !rectangular(grid_view(grid@)) ==> r is Err && r->Err_0 is MalformedTable,
            rectangular(grid_view(grid@)) ==> r is Ok && r->Ok_0.holds(grid_view(grid@), key@),
    {
        let ghost g = grid_view(grid@);
        let mut body = grid;
        if body.len() == 0 {
            let t = AnnotationTable { header: Vec::new(), rows: Vec::new(), key_column: None };
            proof {
                assert(t.header() =~= header_of(g));
                assert(t.rows() =~= Seq::empty());
            }
            return Ok(t);
        }
        let width: usize = body[0].len();
        let mut i: usize = 1;
        while i < body.len()
            invariant
                1 <= i <= body.len(),
                g == grid_view(grid@),
                g == grid_view(body@),
                width == g[0].len(),
                forall|j: int| 0 <= j < i ==> (#[trigger] g[j]).len() == width,
            decreases body.len() - i,
        {
            if body[i].len() != width {
                proof {
                    assert(g[i as int].len() != g[0].len());
                }
                return Err(PipelineError::MalformedTable);
            }
            i += 1;
        }
        let header = body.remove(0);
        proof {
            assert(views(header@) == g[0]);
            assert(grid_view(body@) =~= g.skip(1));
        }
        let key_column = find_column(&header, key);
        let rows = if key_column.is_some() {
            body
        } else {
            Vec::new()
        };
        let t = AnnotationTable { header, rows, key_column };
        proof {
            if key_column is None {
                assert(t.rows() =~= Seq::empty());
            }
            assert forall|i: int| 0 <= i < t.rows().len() implies (#[trigger] t.rows()[i]).len()
                == t.header().len() by {
                assert(t.rows()[i] == g[i + 1]);
            }
        }
        Ok(t)
    }

    /// Tells whether the table has every column that a report of `kind`
    /// carries.
    pub fn has_columns(&self, kind: TableKind) -> (r: bool)
        ensures
            r == self.supports(kind),
    {
        let names = field_names(kind);
        let mut j: usize = 0;
        while j < names.len()
            invariant
                j <= names.len(),
                views(names@) == field_names_of(kind),
                forall|i: int|
                    0 <= i < j ==> column_of(self.header(), #[trigger] field_names_of(kind)[i])
                        >= 0,
            decreases names.len() - j,
        {
            proof {
                assert(views(names@)[j as int] == names@[j as int]@);
            }
            if find_column(&self.header, names[j].as_str()).is_none() {
                return false;
            }
            j += 1;
        }
        true
    }

    /// Joins one line of a counts artifact against the table.
    pub fn annotate_line(&self, kind: TableKind, line: &str) -> (r: Option<String>)
        requires
            self.supports(kind),
        ensures
            match r {
                Some(row) => self.row_for(kind, line@) == Some(row@),
                None => self.row_for(kind, line@) is None,
            },
    {
        proof {
            use_type_invariant(self);
        }
        if count_char(line, ',') != 1 {
            return None;
        }
        let len: usize = line.unicode_len();
        let k: usize = find_char(line, ',');
        proof {
            lemma_index_found(line@, ',');
        }
        let id = line.substring_char(0, k);
        let count = line.substring_char(k + 1, len);
        proof {
            assert(id@ =~= line@.take(k as int));
            assert(count@ =~= line@.skip(k + 1));
        }
        let key_column: usize = match self.key_column {
            Some(c) => c,
            None => {
                return None;
            },
        };
        let found = find_row(&self.rows, key_column, id);
        let r: usize = match found {
            Some(r) => r,
            None => {
                return None;
            },
        };
        let names = field_names(kind);
        let ghost wanted = lookups(self.header(), self.rows()[r as int], field_names_of(kind));
        let mut parts: Vec<String> = Vec::new();
        parts.push(String::from_str(id));
        parts.push(String::from_str(count));
        let mut j: usize = 0;
        proof {
            assert(views(parts@) =~= seq![id@, count@] + wanted.take(0));
        }
        while j < names.len()
            invariant
                j <= names.len(),
                self.wf(),
                self.supports(kind),
                r < self.rows@.len(),
                views(names@) == field_names_of(kind),
                wanted == lookups(self.header(), self.rows()[r as int], field_names_of(kind)),
                views(parts@) == seq![id@, count@] + wanted.take(j as int),
            decreases names.len() - j,
        {
            let ghost before = views(parts@);
            proof {
                assert(views(names@)[j as int] == names@[j as int]@);
                assert(self.rows()[r as int].len() == self.header().len());
                assert(column_of(self.header(), field_names_of(kind)[j as int]) >= 0);
            }
            match find_column(&self.header, names[j].as_str()) {
                Some(c) => {
                    parts.push(self.rows[r][c].clone());
                    proof {
                        assert(views(parts@) =~= before.push(wanted[j as int]));
                        assert(views(parts@) =~= seq![id@, count@] + wanted.take(j + 1));
                    }
                },
                None => {
                    proof {
                        assert(false);
                    }
                },
            }
            j += 1;
        }
        proof {
            assert(wanted.take(names.len() as int) =~= wanted);
        }
        Some(join(&parts, "\t"))
    }

    /// Writes the report for a counts artifact: the title line, then one row
    /// for each line that has two fields and whose identifier the table
    /// holds. Other lines leave no trace.
    pub fn annotate(&self, kind: TableKind, lines: &Vec<String>) -> (report: Vec<String>)
        requires
            self.supports(kind),
        ensures
            views(report@) == self.report_of(kind, views(lines@)),
    {
        let ghost ls = views(lines@);
        let mut report: Vec<String> = Vec::new();
        report.push(header_line(kind));
        let mut i: usize = 0;
        proof {
            assert(views(report@) =~= self.report_of(kind, ls.take(0)));
        }
        while i < lines.len()
            invariant
                i <= lines.len(),
                self.supports(kind),
                ls == views(lines@),
                views(report@) == self.report_of(kind, ls.take(i as int)),
            decreases lines.len() - i,
        {
            let ghost before = views(report@);
            proof {
                assert(ls.take(i + 1).drop_last() =~= ls.take(i as int));
                assert(ls.take(i + 1).last() == lines@[i as int]@);
            }
            match self.annotate_line(kind, lines[i].as_str()) {
                Some(row) => {
                    report.push(row);
                    proof {
                        assert(views(report@) =~= before.push(row@));
                        assert(views(report@) =~= self.report_of(kind, ls.take(i + 1)));
                    }
                },
                None => {
                    proof {
                        assert(views(report@) =~= self.report_of(kind, ls.take(i + 1)));
                    }
                },
            }
            i += 1;
        }
        proof {
            assert(ls.take(lines.len() as int) =~= ls);
        }
        report
    }
}

/// What holds of the row that `row_of` names: it holds `id` in column `col`,
/// and no later row does.
pub proof fn lemma_row_of(rows: Seq<Seq<Seq<char>>>, col: int, id: Seq<char>)
    ensures
        -1 <= row_of(rows, col, id) < rows.len(),
        row_of(rows, col, id) >= 0 ==> 0 <= col < rows[row_of(rows, col, id)].len()
            && rows[row_of(rows, col, id)][col] == id,
        forall|j: int|
            row_of(rows, col, id) < j < rows.len() ==> !(0 <= col < (#[trigger] rows[j]).len()
                && rows[j][col] == id),
    decreases rows.len(),
{
    if rows.len() > 0 && !(0 <= col < rows.last().len() && rows.last()[col] == id) {
        let rest = rows.drop_last();
        lemma_row_of(rest, col, id);
        assert forall|j: int| row_of(rows, col, id) < j < rows.len() implies !(0 <= col < (
        #[trigger] rows[j]).len() && rows[j][col] == id) by {
            if j < rest.len() {
                assert(rest[j] == rows[j]);
            }
        }
    }
}

/// The join keeps the count records that the table knows, and no others: a
/// line gets a report row exactly if it has two fields and some row of the
/// table holds the first of them as its key. The row then starts with the
/// two fields as they stand in the line, and goes on with the fields of the
/// last such row of the table.
pub proof fn lemma_join_keeps_known(table: AnnotationTable, kind: TableKind, line: Seq<char>)
    ensures
        table.row_for(kind, line) is Some <==> count_of(line, ',') == 1 && table.has_key(
            line.take(index_of(line, ',')),
        ),
        table.row_for(kind, line) is Some ==> {
            let id = line.take(index_of(line, ','));
            let count = line.skip(index_of(line, ',') + 1);
            let r = row_of(table.rows(), table.key_column(), id);
            &&& 0 <= r < table.rows().len()
            &&& table.rows()[r][table.key_column()] == id
            &&& table.row_for(kind, line) == Some(
                joined(
                    seq![id, count] + lookups(table.header(), table.rows()[r], field_names_of(kind)),
                    "\t"@,
                ),
            )
        },
{
    let id = line.take(index_of(line, ','));
    lemma_row_of(table.rows(), table.key_column(), id);
}

/// Calls the `csv` crate: a `ReaderBuilder` with the given delimiter and
/// without a header row, `from_reader` on `data`, and `into_records`, each
/// record handed out as its fields. Trusted: the outcome is the one named
/// `delimited_rows`, which depends on the bytes and the delimiter alone.
#[verifier::external_body]
fn read_delimited(data: &[u8], delimiter: u8) -> (r: Result<Vec<Vec<String>>, csv::Error>)
    ensures
        r is Ok <==> delimited_rows(data@, delimiter) is Some,
        r is Ok ==> Some(grid_view(r->Ok_0@)) == delimited_rows(data@, delimiter),
{
    csv::ReaderBuilder::new()
        .delimiter(delimiter)
        .has_headers(false)
        .from_reader(data)
        .into_records()
        .map(|rec| rec.map(|fields| fields.iter().map(|f| f.to_string()).collect()))
        .collect()
}

/// Finds the last column named `name`.
pub fn find_column(header: &Vec<String>, name: &str) -> (r: Option<usize>)
    ensures
        match r {
            Some(c) => c == column_of(views(header@), name@) && c < header.len(),
            None => column_of(views(header@), name@) == -1,
        },
{
    let ghost h = views(header@);
    let wanted = String::from_str(name);
    let mut i: usize = header.len();
    proof {
        assert(h.take(i as int) =~= h);
    }
    while i > 0
        invariant
            i <= header.len(),
            h == views(header@),
            wanted@ == name@,
            column_of(h, name@) == column_of(h.take(i as int), name@),
        decreases i,
    {
        proof {
            assert(h.take(i as int).drop_last() =~= h.take(i - 1));
            assert(h.take(i as int).last() == header@[i - 1]@);
        }
        if header[i - 1] == wanted {
            return Some(i - 1);
        }
        i -= 1;
    }
    None
}

/// Finds the last row that holds `id` in column `col`.
pub fn find_row(rows: &Vec<Vec<String>>, col: usize, id: &str) -> (r: Option<usize>)
    ensures
        match r {
            Some(k) => k == row_of(grid_view(rows@), col as int, id@) && k < rows.len(),
            None => row_of(grid_view(rows@), col as int, id@) == -1,
        },
{
    let ghost g = grid_view(rows@);
    let wanted = String::from_str(id);
    let mut i: usize = rows.len();
    proof {
        assert(g.take(i as int) =~= g);
    }
    while i > 0
        invariant
            i <= rows.len(),
            g == grid_view(rows@),
            wanted@ == id@,
            row_of(g, col as int, id@) == row_of(g.take(i as int), col as int, id@),
        decreases i,
    {
        let row = &rows[i - 1];
        proof {
            assert(g.take(i as int).drop_last() =~= g.take(i - 1));
            assert(g.take(i as int).last() == views(row@));
            if col < row.len() {
                assert(views(row@)[col as int] == row@[col as int]@);
            }
        }
        if col < row.len() && row[col] == wanted {
            return Some(i - 1);
        }
        i -= 1;
    }
    None
}

/// Decides the table type of a counts artifact by the end of its name; a
/// name that belongs to neither type is refused, and handed back.
pub fn classify_artifact(name: &str) -> (r: Result<TableKind, PipelineError>)
    ensures
        match table_kind_of(name@) {
            Some(kind) => r is Ok && r->Ok_0 == kind,
            None => r is Err && r->Err_0 is UnrecognizedArtifact
                && r->Err_0->UnrecognizedArtifact_0@ == name@,
        },
{
    if ends_with(name, ".pfam28.counts") {
        Ok(TableKind::Pfam)
    } else if ends_with(name, ".kegg.counts") {
        Ok(TableKind::Kegg)
    } else {
        Err(PipelineError::UnrecognizedArtifact(String::from_str(name)))
    }
}

/// The column by which a table is keyed.
pub fn key_name(kind: TableKind) -> (name: &'static str)
    ensures
        name@ == key_name_of(kind),
{
    match kind {
        TableKind::Kegg => "kegg_annotation_id",
        TableKind::Pfam => "accession",
    }
}

/// The file that holds a table, below the annotation directory.
pub fn annotation_file_name(kind: TableKind) -> (name: &'static str)
    ensures
        name@ == file_name_of(kind),
{
    match kind {
        TableKind::Kegg => "kegg_annotation.tab",
        TableKind::Pfam => "pfam_annotation.tab",
    }
}

/// The columns of a table that a report row carries.
pub fn field_names(kind: TableKind) -> (names: Vec<String>)
    ensures
        views(names@) == field_names_of(kind),
{
    let mut names: Vec<String> = Vec::new();
    match kind {
        TableKind::Kegg => {
            names.push(String::from_str("name"));
            names.push(String::from_str("definition"));
            names.push(String::from_str("pathway"));
            names.push(String::from_str("module"));
        },
        TableKind::Pfam => {
            names.push(String::from_str("identifier"));
            names.push(String::from_str("name"));
        },
    }
    proof {
        assert(views(names@) =~= field_names_of(kind));
    }
    names
}

/// The title line of a report.
pub fn header_line(kind: TableKind) -> (line: String)
    ensures
        line@ == joined(report_header_of(kind), "\t"@),
{
    let mut titles: Vec<String> = Vec::new();
    match kind {
        TableKind::Kegg => {
            titles.push(String::from_str("kegg_id"));
            titles.push(String::from_str("count"));
            titles.push(String::from_str("name"));
            titles.push(String::from_str("definition"));
            titles.push(String::from_str("pathway"));
            titles.push(String::from_str("module"));
        },
        TableKind::Pfam => {
            titles.push(String::from_str("pfam_id"));
            titles.push(String::from_str("count"));
            titles.push(String::from_str("identifier"));
            titles.push(String::from_str("name"));
        },
    }
    proof {
        assert(views(titles@) =~= report_header_of(kind));
    }
    join(&titles, "\t")
}

/// The name of the report for a counts artifact.
pub fn report_name(artifact: &str) -> (name: String)
    ensures
        name@ == artifact@ + ".annotated"@,
{
    let mut name = String::from_str(artifact);
    name.append(".annotated");
    name
}

/// Reads a reference table of `kind` from the bytes of its file: records
/// of tab-separated fields, the first of which names the columns. Bytes
/// that are no such records, or records of unequal length, are refused.
pub fn load_table(data: &[u8], kind: TableKind) -> (r: Result<AnnotationTable, PipelineError>)
    ensures
        match delimited_rows(data@, TAB) {
            Some(grid) => if rectangular(grid) {
                r is Ok && r->Ok_0.holds(grid, key_name_of(kind))
            } else {
                r is Err && r->Err_0 is MalformedTable
            },
            None => r is Err && r->Err_0 is MalformedTable,
        },
{
    match read_delimited(data, TAB) {
        Ok(grid) => AnnotationTable::from_rows(grid, key_name(kind)),
        Err(_) => Err(PipelineError::MalformedTable),
    }
}

} // verus!

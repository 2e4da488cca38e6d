//! Converting one staged database file into a loaded store.
//!
//! The conversion drives three external tools: one emits the schema
//! statement block, one enumerates table names, and one exports a
//! table's rows for the store's load-from-program statement.  This
//! module holds the verified side of each step: the exact argument
//! lists handed to the tools, the parsing of the table enumeration,
//! the composed schema-then-data transaction, and the fold of the
//! steps' outcomes into the conversion's result.

use vstd::prelude::*;

use crate::errors::{first_error_of, lemma_first_error_ok_iff, RunError};
use crate::paths::{join, joined, stem, stem_of};

verus! {

// ---------------------------------------------------------------------
// Tool argument lists
// ---------------------------------------------------------------------
/// The argument list of the schema-extraction tool: relations are never
/// emitted, and existing tables are dropped first exactly when
/// `drop_existing` asks for it.
pub open spec fn schema_tool_args_spec(db: Seq<char>, drop_existing: bool) -> Seq<Seq<char>> {
    if drop_existing {
        seq!["--no-relations"@, "--drop-table"@, db, "postgres"@]
    } else {
        seq!["--no-relations"@, db, "postgres"@]
    }
}

/// The argument list of the table-enumeration tool: one name per line.
pub open spec fn tables_tool_args_spec(db: Seq<char>) -> Seq<Seq<char>> {
    seq!["-1"@, db]
}

/// Builds the schema tool's argument list.
pub fn schema_tool_args(db_path: &str, drop_existing: bool) -> (args: Vec<String>)
    ensures
        args@.map_values(|a: String| a@) == schema_tool_args_spec(db_path@, drop_existing),
{
    let mut args: Vec<String> = Vec::new();
    args.push(String::from_str("--no-relations"));
    if drop_existing {
        args.push(String::from_str("--drop-table"));
    }
    args.push(String::from_str(db_path));
    args.push(String::from_str("postgres"));
    proof {
        assert(args@.map_values(|a: String| a@) =~= schema_tool_args_spec(
            db_path@,
            drop_existing,
        ));
    }
    args
}

/// Builds the table-enumeration tool's argument list.
pub fn tables_tool_args(db_path: &str) -> (args: Vec<String>)
    ensures
        args@.map_values(|a: String| a@) == tables_tool_args_spec(db_path@),
{
    let mut args: Vec<String> = Vec::new();
    args.push(String::from_str("-1"));
    args.push(String::from_str(db_path));
    proof {
        assert(args@.map_values(|a: String| a@) =~= tables_tool_args_spec(db_path@));
    }
    args
}

/// The destructive drop flag is handed to the schema tool exactly when
/// `drop_existing` is set.  Holds for every database path other than
/// the flag's own spelling.
pub proof fn lemma_drop_flag_governs_args(db: Seq<char>, drop_existing: bool)
    requires
        db != "--drop-table"@,
    ensures
        schema_tool_args_spec(db, drop_existing).contains("--drop-table"@) <==> drop_existing,
{
    reveal_strlit("--no-relations");
    reveal_strlit("--drop-table");
    reveal_strlit("postgres");
    let args = schema_tool_args_spec(db, drop_existing);
    if drop_existing {
        assert(args[1] == "--drop-table"@);
    } else {
        assert forall|i: int| 0 <= i < args.len() implies args[i] != "--drop-table"@ by {
            assert("--no-relations"@.len() == 14);
            assert("--drop-table"@.len() == 12);
            assert("postgres"@.len() == 8);
        }
    }
}

// ---------------------------------------------------------------------
// Parsing the table enumeration
// ---------------------------------------------------------------------
/// Splits `s` at every newline, `cur` being the line under way.
pub open spec fn split_accum(s: Seq<char>, cur: Seq<char>) -> Seq<Seq<char>>
    decreases s.len(),
{
    if s.len() == 0 {
        seq![cur]
    } else if s[0] == '\n' {
        seq![cur] + split_accum(s.subrange(1, s.len() as int), Seq::empty())
    } else {
        split_accum(s.subrange(1, s.len() as int), cur.push(s[0]))
    }
}

/// A line with one trailing carriage return, if any, removed.
pub open spec fn strip_cr(l: Seq<char>) -> Seq<char> {
    if l.len() > 0 && l.last() == '\r' {
        l.drop_last()
    } else {
        l
    }
}

/// The lines with carriage returns stripped and blank lines dropped.
pub open spec fn cleaned_lines(ls: Seq<Seq<char>>) -> Seq<Seq<char>>
    decreases ls.len(),
{
    if ls.len() == 0 {
        Seq::empty()
    } else {
        let rest = cleaned_lines(ls.drop_last());
        let l = strip_cr(ls.last());
        if l.len() > 0 {
            rest.push(l)
        } else {
            rest
        }
    }
}

/// The table names in the enumeration tool's output: one name per
/// line, blank lines ignored.
pub open spec fn table_lines(s: Seq<char>) -> Seq<Seq<char>> {
    cleaned_lines(split_accum(s, Seq::empty()))
}

proof fn lemma_split_accum_step(s: Seq<char>, i: int, cur: Seq<char>)
    requires
        0 <= i < s.len(),
    ensures
        s[i] == '\n' ==> split_accum(s.subrange(i, s.len() as int), cur) == seq![cur]
            + split_accum(s.subrange(i + 1, s.len() as int), Seq::<char>::empty()),
        s[i] != '\n' ==> split_accum(s.subrange(i, s.len() as int), cur) == split_accum(
            s.subrange(i + 1, s.len() as int),
            cur.push(s[i]),
        ),
{
    let t = s.subrange(i, s.len() as int);
    assert(t.len() > 0);
    assert(t[0] == s[i]);
    assert(t.subrange(1, t.len() as int) =~= s.subrange(i + 1, s.len() as int));
}

/// One completed raw line folded into the cleaned list.
proof fn lemma_cleaned_lines_push(ls: Seq<Seq<char>>, l: Seq<char>)
    ensures
        strip_cr(l).len() > 0 ==> cleaned_lines(ls.push(l)) == cleaned_lines(ls).push(strip_cr(l)),
        strip_cr(l).len() == 0 ==> cleaned_lines(ls.push(l)) == cleaned_lines(ls),
{
    assert(ls.push(l).drop_last() =~= ls);
    assert(ls.push(l).last() == l);
}

/// Takes `cur` as a completed raw line: strips a trailing carriage
/// return and appends it to `tables` unless it is blank.
fn flush_line(tables: &mut Vec<String>, cur: &str)
    ensures
        final(tables)@.map_values(|t: String| t@) == (if strip_cr(cur@).len() > 0 {
            old(tables)@.map_values(|t: String| t@).push(strip_cr(cur@))
        } else {
            old(tables)@.map_values(|t: String| t@)
        }),
{
    let m = cur.unicode_len();
    let end = if m > 0 && cur.get_char(m - 1) == '\r' {
        m - 1
    } else {
        m
    };
    proof {
        assert(strip_cr(cur@) =~= cur@.subrange(0, end as int));
    }
    if end > 0 {
        let t = cur.substring_char(0, end);
        tables.push(String::from_str(t));
        proof {
            assert(final(tables)@.map_values(|t: String| t@) =~= old(tables)@.map_values(
                |t: String| t@,
            ).push(strip_cr(cur@)));
        }
    }
}

/// Parses the table-enumeration output, exactly as `table_lines`
/// describes the result.
pub fn parse_table_list(out: &str) -> (tables: Vec<String>)
    ensures
        tables@.map_values(|t: String| t@) == table_lines(out@),
{
    let n = out.unicode_len();
    let mut tables: Vec<String> = Vec::new();
    let mut cur = String::new();
    let ghost mut finished: Seq<Seq<char>> = Seq::empty();
    let mut i: usize = 0;
    proof {
        assert(out@.subrange(0, n as int) =~= out@);
        assert(finished + split_accum(out@, Seq::<char>::empty()) =~= split_accum(
            out@,
            Seq::<char>::empty(),
        ));
        assert(tables@.map_values(|t: String| t@) =~= cleaned_lines(finished));
    }
    while i < n
        invariant
            i <= n,
            n == out@.len(),
            split_accum(out@, Seq::<char>::empty()) == finished + split_accum(
                out@.subrange(i as int, n as int),
                cur@,
            ),
            tables@.map_values(|t: String| t@) == cleaned_lines(finished),
        decreases n - i,
    {
        let ghost curv = cur@;
        let c = out.get_char(i);
        proof {
            lemma_split_accum_step(out@, i as int, curv);
        }
        if c == '\n' {
            flush_line(&mut tables, cur.as_str());
            proof {
                lemma_cleaned_lines_push(finished, curv);
                finished = finished.push(curv);
                assert((finished + split_accum(
                    out@.subrange(i + 1 as int, n as int),
                    Seq::<char>::empty(),
                )) =~= (finished.drop_last() + (seq![curv] + split_accum(
                    out@.subrange(i + 1 as int, n as int),
                    Seq::<char>::empty(),
                ))));
            }
            cur = String::new();
        } else {
            let piece = out.substring_char(i, i + 1);
            cur.append(piece);
            proof {
                assert(cur@ =~= curv.push(out@[i as int]));
            }
        }
        i = i + 1;
    }
    proof {
        assert(out@.subrange(n as int, n as int).len() == 0);
        assert(split_accum(out@, Seq::<char>::empty()) == finished.push(cur@)) by {
            assert(finished + seq![cur@] =~= finished.push(cur@));
        }
        lemma_cleaned_lines_push(finished, cur@);
    }
    let last = cur;
    flush_line(&mut tables, last.as_str());
    tables
}

// ---------------------------------------------------------------------
// Per-table export statements
// ---------------------------------------------------------------------
/// The export tool's command line for one table: headerless output,
/// read by the store directly from the program's stdout.
pub open spec fn export_command_spec(tool: Seq<char>, db: Seq<char>, table: Seq<char>) -> Seq<
    char,
> {
    tool + " -H "@ + db + " "@ + table
}

/// The store's load statement for one table.
pub open spec fn copy_statement_spec(tool: Seq<char>, db: Seq<char>, table: Seq<char>) -> Seq<
    char,
> {
    "COPY "@ + table + " FROM PROGRAM '"@ + export_command_spec(tool, db, table)
        + "' (FORMAT csv);"@
}

/// Builds the export tool's command line for one table.
pub fn export_command(tool: &str, db_path: &str, table: &str) -> (r: String)
    ensures
        r@ == export_command_spec(tool@, db_path@, table@),
{
    String::from_str(tool).concat(" -H ").concat(db_path).concat(" ").concat(table)
}

/// Builds the store's load statement for one table.
pub fn copy_statement(tool: &str, db_path: &str, table: &str) -> (r: String)
    ensures
        r@ == copy_statement_spec(tool@, db_path@, table@),
{
    let cmd = export_command(tool, db_path, table);
    String::from_str("COPY ").concat(table).concat(" FROM PROGRAM '").concat(cmd.as_str()).concat(
        "' (FORMAT csv);",
    )
}

// ---------------------------------------------------------------------
// The schema artifact
// ---------------------------------------------------------------------
/// The durable schema directory under the output root.
pub open spec fn schema_dir_spec(root: Seq<char>) -> Seq<char> {
    joined(root, "schema"@)
}

/// The durable schema artifact path: `<root>/schema/<stem>.sql`, the
/// stem being the database file's basename without its extension.
pub open spec fn schema_artifact_spec(root: Seq<char>, base: Seq<char>) -> Seq<char> {
    joined(schema_dir_spec(root), stem_of(base) + ".sql"@)
}

/// Builds the schema directory path under the output root.
pub fn schema_output_dir(out_root: &str) -> (r: String)
    ensures
        r@ == schema_dir_spec(out_root@),
{
    join(out_root, "schema")
}

/// Builds the schema artifact path for a database file's basename.
pub fn schema_artifact_path(out_root: &str, db_basename: &str) -> (r: String)
    ensures
        r@ == schema_artifact_spec(out_root@, db_basename@),
{
    let dir = schema_output_dir(out_root);
    let name = stem(db_basename).concat(".sql");
    join(dir.as_str(), name.as_str())
}

// ---------------------------------------------------------------------
// Tool output steps
// ---------------------------------------------------------------------
/// Accepts the schema tool's run: a non-zero exit is fatal for the
/// archive's conversion, and output that was not valid text is an
/// encoding failure.  `output_text` carries the tool's stdout, `None`
/// where it did not decode as text.
pub fn schema_step(exit_ok: bool, output_text: Option<String>) -> (r: Result<String, RunError>)
    ensures
        !exit_ok ==> r == Err::<String, RunError>(RunError::ToolExecutionError),
        exit_ok && output_text is None ==> r == Err::<String, RunError>(RunError::EncodingError),
        exit_ok ==> (output_text matches Some(s) ==> r == Ok::<String, RunError>(s)),
{
    if !exit_ok {
        return Err(RunError::ToolExecutionError);
    }
    match output_text {
        None => Err(RunError::EncodingError),
        Some(s) => Ok(s),
    }
}

/// Accepts the table-enumeration tool's run under the same exit and
/// encoding rules, and parses its output into table names.
pub fn tables_step(exit_ok: bool, output_text: Option<String>) -> (r: Result<Vec<String>, RunError>)
    ensures
        !exit_ok ==> r == Err::<Vec<String>, RunError>(RunError::ToolExecutionError),
        exit_ok && output_text is None ==> r == Err::<Vec<String>, RunError>(
            RunError::EncodingError,
        ),
        exit_ok ==> (output_text matches Some(s) ==> (r matches Ok(tables)
            && tables@.map_values(|t: String| t@) == table_lines(s@))),
{
    if !exit_ok {
        return Err(RunError::ToolExecutionError);
    }
    match output_text {
        None => Err(RunError::EncodingError),
        Some(s) => Ok(parse_table_list(s.as_str())),
    }
}

// ---------------------------------------------------------------------
// The composed transaction
// ---------------------------------------------------------------------
/// One archive's conversion as submitted to the store: the schema
/// statement block, then one load statement per enumerated table.
pub struct Transaction {
    pub schema: String,
    pub loads: Vec<String>,
}

impl Transaction {
    /// The statements in submission order: the schema block first,
    /// then every table's load statement.
    pub open spec fn statements(&self) -> Seq<Seq<char>> {
        seq![self.schema@] + self.loads@.map_values(|s: String| s@)
    }

    /// The statements as owned strings, in submission order.
    pub fn to_statements(&self) -> (r: Vec<String>)
        ensures
            r@.map_values(|s: String| s@) == self.statements(),
    {
        let mut r: Vec<String> = Vec::new();
        r.push(self.schema.clone());
        let mut i: usize = 0;
        while i < self.loads.len()
            invariant
                i <= self.loads.len(),
                r@.len() == i + 1,
                r@[0]@ == self.schema@,
                forall|j: int| 1 <= j <= i as int ==> #[trigger] r@[j]@ == self.loads@[j - 1]@,
            decreases self.loads.len() - i,
        {
            r.push(self.loads[i].clone());
            i = i + 1;
        }
        proof {
            let f = |s: String| s@;
            assert forall|j: int| 0 <= j < r@.len() implies #[trigger] r@.map_values(f)[j]
                == self.statements()[j] by {
                assert(r@.map_values(f)[j] == r@[j]@);
            }
            assert(r@.map_values(f) =~= self.statements());
        }
        r
    }
}

/// Composes one archive's transaction: the schema block first, then
/// one load statement per table, in enumeration order.
pub fn compose_transaction(
    schema_sql: String,
    tool: &str,
    db_path: &str,
    tables: &Vec<String>,
) -> (t: Transaction)
    ensures
        t.schema == schema_sql,
        t.loads@.len() == tables@.len(),
        forall|i: int|
            0 <= i < tables@.len() ==> t.loads@[i]@ == copy_statement_spec(
                tool@,
                db_path@,
                #[trigger] tables@[i]@,
            ),
{
    let mut loads: Vec<String> = Vec::new();
    let mut i: usize = 0;
    while i < tables.len()
        invariant
            i <= tables.len(),
            loads@.len() == i,
            forall|j: int|
                0 <= j < i ==> loads@[j]@ == copy_statement_spec(
                    tool@,
                    db_path@,
                    #[trigger] tables@[j]@,
                ),
        decreases tables.len() - i,
    {
        let stmt = copy_statement(tool, db_path, tables[i].as_str());
        loads.push(stmt);
        i = i + 1;
    }
    Transaction { schema: schema_sql, loads }
}

/// In every composed transaction the schema block stands at the head,
/// so the store observes it before any table's load statement.
pub proof fn lemma_schema_before_loads(t: Transaction)
    ensures
        t.statements().len() == 1 + t.loads@.len(),
        t.statements()[0] == t.schema@,
        forall|i: int| 1 <= i < t.statements().len() ==> t.statements()[i] == t.loads@[i - 1]@,
{
}

// ---------------------------------------------------------------------
// Conversion and archive outcomes
// ---------------------------------------------------------------------
/// The conversion's result from its steps' outcomes: the first failure
/// among schema extraction, table enumeration, and the per-table
/// exports in their order.
pub open spec fn conversion_spec(
    schema: Result<(), RunError>,
    tables: Result<(), RunError>,
    exports: Seq<Result<(), RunError>>,
) -> Result<(), RunError> {
    match schema {
        Err(e) => Err(e),
        Ok(u) => match tables {
            Err(e) => Err(e),
            Ok(v) => first_error_of(exports),
        },
    }
}

/// A conversion succeeds exactly when schema extraction, table
/// enumeration, and every per-table export succeeded.
pub proof fn lemma_conversion_ok_iff_steps_ok(
    schema: Result<(), RunError>,
    tables: Result<(), RunError>,
    exports: Seq<Result<(), RunError>>,
)
    ensures
        (conversion_spec(schema, tables, exports) is Ok) <==> (schema is Ok && tables is Ok
            && forall|i: int| 0 <= i < exports.len() ==> #[trigger] exports[i] is Ok),
{
    lemma_first_error_ok_iff(exports);
}

/// Folds the steps' outcomes into the conversion's result, exactly as
/// `conversion_spec` describes it.
pub fn conversion_outcome(
    schema: Result<(), RunError>,
    tables: Result<(), RunError>,
    exports: &Vec<Result<(), RunError>>,
) -> (r: Result<(), RunError>)
    ensures
        r == conversion_spec(schema, tables, exports@),
{
    match schema {
        Err(e) => Err(e),
        Ok(u) => match tables {
            Err(e) => Err(e),
            Ok(v) => crate::errors::first_error(exports),
        },
    }
}

/// One archive's overall result: its decode loop's result, joined with
/// its conversion job's, the decode failure winning since a failed
/// decode never reaches the join.
pub fn archive_outcome(
    decode: Result<(), RunError>,
    conversion: Option<Result<(), RunError>>,
) -> (r: Result<(), RunError>)
    ensures
        decode is Err ==> r == decode,
        decode is Ok ==> (conversion matches Some(c) ==> r == c),
        decode is Ok && conversion is None ==> r == Ok::<(), RunError>(()),
{
    match decode {
        Err(e) => Err(e),
        Ok(u) => match conversion {
            Some(c) => c,
            None => Ok(()),
        },
    }
}

} // verus!

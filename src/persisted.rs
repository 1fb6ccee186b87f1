//! The persisted registry: a CSV file with a header row naming the columns
//! `name`, `enabled` and `installed`, and one row per plugin.

use vstd::prelude::*;
use vstd::string::StringExecFns;

use crate::error::RegistryError;
use crate::plugin::{Plugin, PluginView, flag_text};
use crate::registry::Registry;
use crate::text::same_text;

verus! {

/// The csv crate's `csv::Error`, which the wrappers below return and which
/// is carried opaquely until mapped to a [`RegistryError`].
#[verifier::external_type_specification]
#[verifier::external_body]
pub struct ExCsvError(csv::Error);

/// The bytes that the csv crate's writer, in its default dialect and
/// without a header, gives for one record.
pub uninterp spec fn csv_record(fields: Seq<Seq<char>>) -> Seq<u8>;

/// The records that the csv crate's reader, in its default dialect and
/// taking no row as a header, reads from `bytes`; `None` when it reports
/// an error.
pub uninterp spec fn csv_records(bytes: Seq<u8>) -> Option<Seq<Seq<Seq<char>>>>;

/// Relies on `csv::Writer::write_record` and `csv::Writer::into_inner` over
/// a new in-memory buffer: the bytes of one record, a function of its
/// fields. A fresh writer fails only where writing to its target fails,
/// which a `Vec` never does, or where a record's length differs from an
/// earlier record's, which the first record cannot.
#[verifier::external_body]
fn encode_record(fields: &Vec<String>) -> (r: Result<Vec<u8>, csv::Error>)
    ensures
        r is Ok,
        r is Ok ==> r->Ok_0@ == csv_record(fields.deep_view()),
{
    let mut writer = csv::WriterBuilder::new().has_headers(false).from_writer(Vec::new());
    writer.write_record(fields)?;
    writer.into_inner().map_err(|e| csv::Error::from(e.into_error()))
}

/// Relies on `csv::Reader::records` over `bytes`: every record as its
/// fields, or the reader's error; a function of the bytes.
#[verifier::external_body]
fn decode_records(bytes: &[u8]) -> (r: Result<Vec<Vec<String>>, csv::Error>)
    ensures
        r is Ok ==> csv_records(bytes@) == Some(r->Ok_0.deep_view()),
        r is Err ==> csv_records(bytes@) is None,
{
    let mut reader = csv::ReaderBuilder::new().has_headers(false).from_reader(bytes);
    reader.records().map(|rec| rec.map(|rec| rec.iter().map(String::from).collect())).collect()
}

/// The labels of the header row.
pub open spec fn header_fields() -> Seq<Seq<char>> {
    seq!["name"@, "enabled"@, "installed"@]
}

/// The fields of a plugin's row.
pub open spec fn plugin_fields(p: PluginView) -> Seq<Seq<char>> {
    seq![p.name, flag_text(p.enabled), flag_text(p.installed)]
}

/// The bytes of the rows of the plugins `s`, in order.
pub open spec fn rows_bytes(s: Seq<PluginView>) -> Seq<u8>
    decreases s.len(),
{
    if s.len() == 0 {
        Seq::empty()
    } else {
        rows_bytes(s.drop_last()) + csv_record(plugin_fields(s.last()))
    }
}

/// The persisted form of the plugins `s`: the header row, then one row per
/// plugin.
pub open spec fn persisted_bytes(s: Seq<PluginView>) -> Seq<u8> {
    csv_record(header_fields()) + rows_bytes(s)
}

/// The position of the first field of `header` equal to `label`.
pub open spec fn column_of(header: Seq<Seq<char>>, label: Seq<char>) -> Option<int>
    decreases header.len(),
{
    if header.len() == 0 {
        None
    } else if header[0] == label {
        Some(0)
    } else {
        match column_of(header.drop_first(), label) {
            Some(i) => Some(i + 1),
            None => None,
        }
    }
}

/// The value of a flag's text.
pub open spec fn parse_flag(t: Seq<char>) -> Option<bool> {
    if t == "true"@ {
        Some(true)
    } else if t == "false"@ {
        Some(false)
    } else {
        None
    }
}

/// The plugin that `row` describes, given the positions of the columns.
pub open spec fn row_plugin(row: Seq<Seq<char>>, name: int, enabled: int, installed: int) -> Result<
    PluginView,
    RegistryError,
> {
    if row.len() <= name || row.len() <= enabled || row.len() <= installed {
        Err(RegistryError::ShortRow)
    } else {
        match (parse_flag(row[enabled]), parse_flag(row[installed])) {
            (Some(e), Some(i)) => Ok(PluginView { name: row[name], enabled: e, installed: i }),
            _ => Err(RegistryError::InvalidFlag),
        }
    }
}

/// The plugins that the data rows `rows` describe, a later row replacing an
/// earlier one of the same name; or the first row's failure.
pub open spec fn rows_registry(rows: Seq<Seq<Seq<char>>>, name: int, enabled: int, installed: int) -> Result<
    Map<Seq<char>, PluginView>,
    RegistryError,
>
    decreases rows.len(),
{
    if rows.len() == 0 {
        Ok(Map::empty())
    } else {
        match rows_registry(rows.drop_last(), name, enabled, installed) {
            Err(e) => Err(e),
            Ok(m) => match row_plugin(rows.last(), name, enabled, installed) {
                Err(e) => Err(e),
                Ok(p) => Ok(m.insert(p.name, p)),
            },
        }
    }
}

proof fn lemma_rows_failure_persists(
    rows: Seq<Seq<Seq<char>>>,
    k: int,
    name: int,
    enabled: int,
    installed: int,
)
    requires
        0 <= k <= rows.len(),
        rows_registry(rows.take(k), name, enabled, installed) is Err,
    ensures
        rows_registry(rows, name, enabled, installed) == rows_registry(
            rows.take(k),
            name,
            enabled,
            installed,
        ),
    decreases rows.len(),
{
    if k == rows.len() {
        assert(rows.take(k) =~= rows);
    } else {
        assert(rows.drop_last().take(k) =~= rows.take(k));
        lemma_rows_failure_persists(rows.drop_last(), k, name, enabled, installed);
    }
}

/// The plugins that the records `rows` describe: a header row naming the
/// columns, then the data rows.
pub open spec fn records_registry(rows: Seq<Seq<Seq<char>>>) -> Result<
    Map<Seq<char>, PluginView>,
    RegistryError,
> {
    if rows.len() == 0 {
        Err(RegistryError::MissingHeader)
    } else {
        match (
            column_of(rows[0], "name"@),
            column_of(rows[0], "enabled"@),
            column_of(rows[0], "installed"@),
        ) {
            (Some(n), Some(e), Some(i)) => rows_registry(rows.drop_first(), n, e, i),
            _ => Err(RegistryError::MissingColumn),
        }
    }
}

/// The plugins that the persisted bytes describe.
pub open spec fn bytes_registry(bytes: Seq<u8>) -> Result<Map<Seq<char>, PluginView>, RegistryError> {
    match csv_records(bytes) {
        None => Err(RegistryError::MalformedCsv),
        Some(rows) => records_registry(rows),
    }
}

/// Whether `r` is the outcome that `expected` describes.
pub open spec fn outcome_matches(
    r: Result<Registry, RegistryError>,
    expected: Result<Map<Seq<char>, PluginView>, RegistryError>,
) -> bool {
    match (r, expected) {
        (Ok(reg), Ok(m)) => reg.wf() && reg@ == m,
        (Err(e), Err(f)) => e == f,
        _ => false,
    }
}

fn flag_string(b: bool) -> (r: String)
    ensures
        r@ == flag_text(b),
{
    if b {
        String::from_str("true")
    } else {
        String::from_str("false")
    }
}

fn column(header: &Vec<String>, label: &str) -> (r: Option<usize>)
    ensures
        r matches Some(i) ==> column_of(header.deep_view(), label@) == Some(i as int),
        r is None ==> column_of(header.deep_view(), label@) is None,
{
    let ghost h = header.deep_view();
    let mut i: usize = header.len();
    let mut found: Option<usize> = None;
    while i > 0
        invariant
            h == header.deep_view(),
            i <= h.len(),
            found matches Some(k) ==> column_of(h.skip(i as int), label@) == Some(k - i),
            found matches Some(k) ==> i <= k < h.len(),
            found is None ==> column_of(h.skip(i as int), label@) is None,
        decreases i,
    {
        i = i - 1;
        let ghost rest = h.skip(i as int);
        assert(rest.drop_first() =~= h.skip(i + 1));
        assert(rest[0] == header[i as int]@);
        if same_text(header[i].as_str(), label) {
            found = Some(i);
        }
    }
    assert(h.skip(0) =~= h);
    found
}

fn parse_flag_field(t: &String) -> (r: Option<bool>)
    ensures
        r == parse_flag(t@),
{
    if same_text(t.as_str(), "true") {
        Some(true)
    } else if same_text(t.as_str(), "false") {
        Some(false)
    } else {
        None
    }
}

impl Registry {
    /// The persisted form of the registry: the header row, then one row per
    /// plugin in name order.
    pub fn to_csv(&self) -> (r: Vec<u8>)
        ensures
            r@ == persisted_bytes(self.entries()),
    {
        let header = vec![
            String::from_str("name"),
            String::from_str("enabled"),
            String::from_str("installed"),
        ];
        assert(header.deep_view() =~= header_fields());
        let mut bytes = encode_record(&header).unwrap();
        let ghost s = self.entries();
        let mut i: usize = 0;
        assert(s.take(0) =~= Seq::<PluginView>::empty());
        assert(bytes@ =~= persisted_bytes(s.take(0)));
        while i < self.len()
            invariant
                s == self.entries(),
                i <= s.len(),
                bytes@ == persisted_bytes(s.take(i as int)),
            decreases s.len() - i,
        {
            let p = self.plugin_at(i);
            let fields = vec![p.name.clone(), flag_string(p.enabled), flag_string(p.installed)];
            assert(fields.deep_view() =~= plugin_fields(p@));
            let mut row = encode_record(&fields).unwrap();
            assert(s.take(i + 1).drop_last() =~= s.take(i as int));
            assert(s.take(i + 1).last() == p@);
            bytes.append(&mut row);
            assert(bytes@ =~= persisted_bytes(s.take(i + 1)));
            i = i + 1;
        }
        assert(s.take(s.len() as int) =~= s);
        bytes
    }

    /// The registry that the CSV records `rows` describe: the first row
    /// names the columns, each further row is one plugin, and a later row
    /// replaces an earlier one of the same name.
    pub fn from_records(rows: &Vec<Vec<String>>) -> (r: Result<Registry, RegistryError>)
        ensures
            outcome_matches(r, records_registry(rows.deep_view())),
    {
        let ghost all = rows.deep_view();
        if rows.len() == 0 {
            return Err(RegistryError::MissingHeader);
        }
        assert(all[0] == rows[0].deep_view());
        let name = column(&rows[0], "name");
        let enabled = column(&rows[0], "enabled");
        let installed = column(&rows[0], "installed");
        let (n, e, f) = match (name, enabled, installed) {
            (Some(n), Some(e), Some(f)) => (n, e, f),
            _ => return Err(RegistryError::MissingColumn),
        };
        let ghost data = all.drop_first();
        let mut registry = Registry::new();
        let mut i: usize = 1;
        assert(data.take(0) =~= Seq::<Seq<Seq<char>>>::empty());
        while i < rows.len()
            invariant
                all == rows.deep_view(),
                data == all.drop_first(),
                1 <= i <= rows.len(),
                column_of(all[0], "name"@) == Some(n as int),
                column_of(all[0], "enabled"@) == Some(e as int),
                column_of(all[0], "installed"@) == Some(f as int),
                registry.wf(),
                rows_registry(data.take(i - 1), n as int, e as int, f as int) == Ok::<
                    Map<Seq<char>, PluginView>,
                    RegistryError,
                >(registry@),
            decreases rows.len() - i,
        {
            let row = &rows[i];
            assert(data.take(i as int).drop_last() =~= data.take(i - 1));
            assert(data.take(i as int).last() == row.deep_view());
            if row.len() <= n || row.len() <= e || row.len() <= f {
                assert(rows_registry(data.take(i as int), n as int, e as int, f as int) == Err::<
                    Map<Seq<char>, PluginView>,
                    RegistryError,
                >(RegistryError::ShortRow));
                proof {
                    lemma_rows_failure_persists(data, i as int, n as int, e as int, f as int);
                }
                return Err(RegistryError::ShortRow);
            }
            let en = parse_flag_field(&row[e]);
            let inst = parse_flag_field(&row[f]);
            assert(row.deep_view()[e as int] == row[e as int]@);
            assert(row.deep_view()[f as int] == row[f as int]@);
            assert(row.deep_view()[n as int] == row[n as int]@);
            match (en, inst) {
                (Some(en), Some(inst)) => {
                    registry.insert(Plugin::new(row[n].clone(), en, inst));
                },
                _ => {
                    assert(rows_registry(data.take(i as int), n as int, e as int, f as int)
                        == Err::<Map<Seq<char>, PluginView>, RegistryError>(
                        RegistryError::InvalidFlag,
                    ));
                    proof {
                        lemma_rows_failure_persists(data, i as int, n as int, e as int, f as int);
                    }
                    return Err(RegistryError::InvalidFlag);
                },
            }
            i = i + 1;
        }
        assert(data.take(rows.len() - 1) =~= data);
        Ok(registry)
    }

    /// The registry that the persisted bytes describe; `MalformedCsv` where
    /// they are not CSV.
    pub fn from_csv(bytes: &[u8]) -> (r: Result<Registry, RegistryError>)
        ensures
            outcome_matches(r, bytes_registry(bytes@)),
    {
        match decode_records(bytes) {
            Ok(rows) => Registry::from_records(&rows),
            Err(_) => Err(RegistryError::MalformedCsv),
        }
    }
}

} // verus!

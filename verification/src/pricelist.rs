//! Reading a retailer's CSV price list into rows of text.
//!
//! Cells that hold prices are handed on as decimal text (comma read as a
//! decimal point); turning that text into a number is the caller's part.
use vstd::prelude::*;
use crate::columns::{
    col, column_of, comma_to_dot, decimal_text, field, field_spec, header_keys, normalize_unit,
    str_views, string_views, unit_of_word, unit_word,
};
use crate::text::{chars_of, chars_starts_with, lemma_trim_idempotent, starts_with, trim};

verus! {

/// The retail chains whose price lists are read.
#[derive(PartialEq, Eq, Structural, Clone, Copy, Debug)]
pub enum Chain {
    Eurospin,
    Kaufland,
    Konzum,
    Ktc,
    Lidl,
    Spar,
}

// ── The csv crate ───────────────────────────────────────────────────────────

/// The headers of a CSV document, and its further records unless reading
/// them failed.
pub struct CsvTable {
    pub headers: Vec<String>,
    pub rows: Result<Vec<Vec<String>>, csv::Error>,
}

pub open spec fn rows_view(rows: Seq<Vec<String>>) -> Seq<Seq<Seq<char>>> {
    rows.map_values(|r: Vec<String>| string_views(r@))
}

/// What the csv crate reads from `data` with the given field delimiter,
/// flexible record lengths and the first record as headers: `None` when the
/// header record cannot be read; else the header cells, and the cells of the
/// further records (`None` when one of them cannot be read).
pub uninterp spec fn csv_records(data: Seq<u8>, delimiter: u8) -> Option<
    (Seq<Seq<char>>, Option<Seq<Seq<Seq<char>>>>),
>;

#[verifier::external_type_specification]
#[verifier::external_body]
pub struct ExCsvError(csv::Error);

/// Reads a document with `csv::ReaderBuilder` (given delimiter, flexible
/// record lengths, first record as headers): `StringReader::headers`, then
/// `records` until the first error. The contract claims only that the outcome
/// is `csv_records(data, delimiter)`, a function of the input.
#[verifier::external_body]
fn read_csv(data: &[u8], delimiter: u8) -> (r: Result<CsvTable, csv::Error>)
    ensures
        r is Ok <==> csv_records(data@, delimiter) is Some,
        r matches Ok(t) ==> csv_records(data@, delimiter) == Some(
            (
                string_views(t.headers@),
                match t.rows {
                    Ok(rows) => Some(rows_view(rows@)),
                    Err(_) => None,
                },
            ),
        ),
{
    let mut rdr = csv::ReaderBuilder::new().delimiter(delimiter).flexible(true).from_reader(data);
    let headers = rdr.headers()?.iter().map(|h| h.to_string()).collect();
    let rows = rdr.records().map(|rec| rec.map(|r| r.iter().map(|f| f.to_string()).collect())).collect();
    Ok(CsvTable { headers, rows })
}

// ── Delimiter sniffing ──────────────────────────────────────────────────────

pub open spec fn utf8_bom() -> Seq<u8> {
    seq![0xefu8, 0xbbu8, 0xbfu8]
}

/// `d` without a leading UTF-8 byte-order mark.
pub open spec fn without_bom(d: Seq<u8>) -> Seq<u8> {
    if starts_with(d, utf8_bom()) {
        d.subrange(3, d.len() as int)
    } else {
        d
    }
}

/// The bytes of `d` before its first line feed or carriage return.
pub open spec fn first_line(d: Seq<u8>) -> Seq<u8>
    decreases d.len(),
{
    if d.len() == 0 || d[0] == 10u8 || d[0] == 13u8 {
        Seq::empty()
    } else {
        seq![d[0]] + first_line(d.drop_first())
    }
}

/// How often `b` occurs in `s`.
pub open spec fn count_of(s: Seq<u8>, b: u8) -> nat
    decreases s.len(),
{
    if s.len() == 0 {
        0
    } else {
        count_of(s.drop_last(), b) + if s.last() == b {
            1nat
        } else {
            0nat
        }
    }
}

/// The field delimiter that is most frequent on the first line: tab, then
/// semicolon, then comma win ties in that order.
pub open spec fn sniffed_delimiter(line: Seq<u8>) -> u8 {
    let tabs = count_of(line, 9);
    let semis = count_of(line, 59);
    let commas = count_of(line, 44);
    if tabs >= semis && tabs >= commas {
        9
    } else if semis >= commas {
        59
    } else {
        44
    }
}

/// The length of the first line of `d`.
fn first_line_len(d: &[u8]) -> (n: usize)
    ensures
        n <= d@.len(),
        first_line(d@) == d@.subrange(0, n as int),
{
    let mut n: usize = 0;
    assert(d@.subrange(0, 0) + d@.subrange(0, d@.len() as int) =~= d@);
    assert(d@.subrange(0, d@.len() as int) =~= d@);
    while n < d.len() && d[n] != 10u8 && d[n] != 13u8
        invariant
            n <= d@.len(),
            first_line(d@) == d@.subrange(0, n as int) + first_line(
                d@.subrange(n as int, d@.len() as int),
            ),
        decreases d.len() - n,
    {
        let ghost rest = d@.subrange(n as int, d@.len() as int);
        assert(rest.drop_first() =~= d@.subrange(n + 1, d@.len() as int));
        assert(d@.subrange(0, n + 1) =~= d@.subrange(0, n as int) + seq![d@[n as int]]);
        n = n + 1;
    }
    let ghost rest = d@.subrange(n as int, d@.len() as int);
    assert(first_line(rest) =~= Seq::<u8>::empty());
    assert(d@.subrange(0, n as int) + Seq::<u8>::empty() =~= d@.subrange(0, n as int));
    n
}

/// How often `b` occurs in `s[..n]`.
fn count_byte(s: &[u8], n: usize, b: u8) -> (c: usize)
    requires
        n <= s@.len(),
    ensures
        c == count_of(s@.subrange(0, n as int), b),
{
    let mut c: usize = 0;
    let mut i: usize = 0;
    while i < n
        invariant
            i <= n <= s@.len(),
            c == count_of(s@.subrange(0, i as int), b),
            c <= i,
        decreases n - i,
    {
        assert(s@.subrange(0, i + 1).drop_last() =~= s@.subrange(0, i as int));
        if s[i] == b {
            c = c + 1;
        }
        i = i + 1;
    }
    c
}

/// The data without a UTF-8 byte-order mark, and the delimiter its first
/// line suggests (tab, semicolon or comma, whichever occurs most; ties in
/// that order).
pub fn sniff_csv(data: &[u8]) -> (r: (&[u8], u8))
    ensures
        r.0@ == without_bom(data@),
        r.1 == sniffed_delimiter(first_line(without_bom(data@))),
{
    let bom: [u8; 3] = [0xefu8, 0xbbu8, 0xbfu8];
    assert(bom@ =~= utf8_bom());
    let body: &[u8] = if data.len() >= 3 && data[0] == bom[0] && data[1] == bom[1] && data[2]
        == bom[2] {
        assert(data@.subrange(0, 3) =~= utf8_bom());
        &data[3..data.len()]
    } else {
        assert(!starts_with(data@, utf8_bom())) by {
            if data@.len() >= 3 && data@.subrange(0, 3) == utf8_bom() {
                assert(data@.subrange(0, 3)[0] == data@[0]);
                assert(data@.subrange(0, 3)[1] == data@[1]);
                assert(data@.subrange(0, 3)[2] == data@[2]);
            }
        }
        data
    };
    assert(body@ == without_bom(data@));
    let n = first_line_len(body);
    let tabs = count_byte(body, n, 9u8);
    let semis = count_byte(body, n, 59u8);
    let commas = count_byte(body, n, 44u8);
    let delim = if tabs >= semis && tabs >= commas {
        9u8
    } else if semis >= commas {
        59u8
    } else {
        44u8
    };
    (body, delim)
}

// ── Columns and rows ────────────────────────────────────────────────────────

/// Where a price list keeps each kind of cell.
pub struct PriceColumns {
    pub name: usize,
    pub brand: Option<usize>,
    pub barcode: Option<usize>,
    pub price: Option<usize>,
    /// A second shelf-price column, read where the first is blank.
    pub sale_price: Option<usize>,
    pub unit_price: Option<usize>,
    pub unit: Option<usize>,
}

/// Why a price list could not be read.
#[derive(Debug)]
pub enum PriceListError {
    /// No column holds the product name.
    MissingNameColumn,
    /// No column holds the shelf price.
    MissingPriceColumn,
    /// The CSV reader failed.
    Csv(csv::Error),
}

pub open spec fn opt_int(o: Option<usize>) -> Option<int> {
    match o {
        Some(i) => Some(i as int),
        None => None,
    }
}

pub open spec fn names(s: Seq<&str>) -> Seq<Seq<char>> {
    str_views(s)
}

/// Candidate header names, per chain and kind of cell.
pub open spec fn name_headers() -> Seq<Seq<char>> {
    seq!["naziv_proizvoda"@, "naziv"@]
}

pub open spec fn brand_headers() -> Seq<Seq<char>> {
    seq!["marka_proizvoda"@, "marka"@, "brend"@]
}

pub open spec fn barcode_headers() -> Seq<Seq<char>> {
    seq!["barkod"@, "ean"@]
}

pub open spec fn price_headers(c: Chain) -> Seq<Seq<char>> {
    match c {
        Chain::Eurospin | Chain::Kaufland => seq![
            "maloprodajna_cijena"@,
            "maloprod.cijena"@,
            "mpc"@,
            "cijena"@,
        ],
        _ => seq!["maloprodajna_cijena"@, "mpc"@, "cijena"@],
    }
}

pub open spec fn sale_price_headers(c: Chain) -> Seq<Seq<char>> {
    match c {
        Chain::Spar => seq!["mpc za vrijeme posebnog oblika prodaje"@],
        _ => Seq::empty(),
    }
}

pub open spec fn unit_price_headers(c: Chain) -> Seq<Seq<char>> {
    match c {
        Chain::Kaufland => seq!["cijena jed.mj."@, "cijena_za_jedinicu_mjere"@, "cijena/jed"@],
        _ => seq!["cijena_za_jedinicu_mjere"@, "cijena/jed"@],
    }
}

pub open spec fn unit_headers(c: Chain) -> Seq<Seq<char>> {
    match c {
        Chain::Kaufland => seq!["jed.mj."@, "jedinica_mjere"@, "jedinica mjere"@],
        _ => seq!["jedinica_mjere"@, "jedinica mjere"@],
    }
}

/// The columns of a chain's price list, given its header keys; or why it is unusable.
pub open spec fn columns_spec(c: Chain, keys: Seq<Seq<char>>) -> Result<
    (int, Option<int>, Option<int>, Option<int>, Option<int>, Option<int>, Option<int>),
    PriceListError,
> {
    let name = column_of(keys, name_headers());
    let price = column_of(keys, price_headers(c));
    let sale = column_of(keys, sale_price_headers(c));
    if name is None {
        Err(PriceListError::MissingNameColumn)
    } else if price is None && sale is None {
        Err(PriceListError::MissingPriceColumn)
    } else {
        Ok(
            (
                name->0,
                column_of(keys, brand_headers()),
                column_of(keys, barcode_headers()),
                price,
                sale,
                column_of(keys, unit_price_headers(c)),
                column_of(keys, unit_headers(c)),
            ),
        )
    }
}

pub open spec fn columns_tuple(p: PriceColumns) -> (
    int,
    Option<int>,
    Option<int>,
    Option<int>,
    Option<int>,
    Option<int>,
    Option<int>,
) {
    (
        p.name as int,
        opt_int(p.brand),
        opt_int(p.barcode),
        opt_int(p.price),
        opt_int(p.sale_price),
        opt_int(p.unit_price),
        opt_int(p.unit),
    )
}

fn name_header_list() -> (r: &'static [&'static str])
    ensures
        str_views(r@) == name_headers(),
{
    let r: &'static [&'static str] = &["naziv_proizvoda", "naziv"];
    assert(str_views(r@) =~= name_headers());
    r
}

fn brand_header_list() -> (r: &'static [&'static str])
    ensures
        str_views(r@) == brand_headers(),
{
    let r: &'static [&'static str] = &["marka_proizvoda", "marka", "brend"];
    assert(str_views(r@) =~= brand_headers());
    r
}

fn barcode_header_list() -> (r: &'static [&'static str])
    ensures
        str_views(r@) == barcode_headers(),
{
    let r: &'static [&'static str] = &["barkod", "ean"];
    assert(str_views(r@) =~= barcode_headers());
    r
}

fn price_header_list(c: Chain) -> (r: &'static [&'static str])
    ensures
        str_views(r@) == price_headers(c),
{
    match c {
        Chain::Eurospin | Chain::Kaufland => {
            let r: &'static [&'static str] = &["maloprodajna_cijena", "maloprod.cijena", "mpc", "cijena"];
            assert(str_views(r@) =~= price_headers(c));
            r
        },
        _ => {
            let r: &'static [&'static str] = &["maloprodajna_cijena", "mpc", "cijena"];
            assert(str_views(r@) =~= price_headers(c));
            r
        },
    }
}

fn sale_price_header_list(c: Chain) -> (r: &'static [&'static str])
    ensures
        str_views(r@) == sale_price_headers(c),
{
    match c {
        Chain::Spar => {
            let r: &'static [&'static str] = &["mpc za vrijeme posebnog oblika prodaje"];
            assert(str_views(r@) =~= sale_price_headers(c));
            r
        },
        _ => {
            let r: &'static [&'static str] = &[];
            assert(str_views(r@) =~= sale_price_headers(c));
            r
        },
    }
}

fn unit_price_header_list(c: Chain) -> (r: &'static [&'static str])
    ensures
        str_views(r@) == unit_price_headers(c),
{
    match c {
        Chain::Kaufland => {
            let r: &'static [&'static str] = &["cijena jed.mj.", "cijena_za_jedinicu_mjere", "cijena/jed"];
            assert(str_views(r@) =~= unit_price_headers(c));
            r
        },
        _ => {
            let r: &'static [&'static str] = &["cijena_za_jedinicu_mjere", "cijena/jed"];
            assert(str_views(r@) =~= unit_price_headers(c));
            r
        },
    }
}

fn unit_header_list(c: Chain) -> (r: &'static [&'static str])
    ensures
        str_views(r@) == unit_headers(c),
{
    match c {
        Chain::Kaufland => {
            let r: &'static [&'static str] = &["jed.mj.", "jedinica_mjere", "jedinica mjere"];
            assert(str_views(r@) =~= unit_headers(c));
            r
        },
        _ => {
            let r: &'static [&'static str] = &["jedinica_mjere", "jedinica mjere"];
            assert(str_views(r@) =~= unit_headers(c));
            r
        },
    }
}

/// Locates the cells of a chain's price list from its headers; fails when no
/// column holds the product name, or none the price.
pub fn price_columns(c: Chain, headers: &Vec<String>) -> (r: Result<PriceColumns, PriceListError>)
    ensures
        ({
            let spec_r = columns_spec(c, header_keys(string_views(headers@)));
            &&& r matches Ok(p) ==> spec_r == Ok::<_, PriceListError>(columns_tuple(p))
            &&& r matches Err(e) ==> spec_r == Err::<(int, Option<int>, Option<int>, Option<int>, Option<int>, Option<int>, Option<int>), PriceListError>(e)
        }),
{
    let name = col(headers, name_header_list());
    let brand = col(headers, brand_header_list());
    let barcode = col(headers, barcode_header_list());
    let price = col(headers, price_header_list(c));
    let sale = col(headers, sale_price_header_list(c));
    let unit_price = col(headers, unit_price_header_list(c));
    let unit = col(headers, unit_header_list(c));
    let name = match name {
        Some(i) => i,
        None => return Err(PriceListError::MissingNameColumn),
    };
    if price.is_none() && sale.is_none() {
        return Err(PriceListError::MissingPriceColumn);
    }
    Ok(
        PriceColumns {
            name,
            brand,
            barcode,
            price,
            sale_price: sale,
            unit_price,
            unit,
        },
    )
}

/// One usable row of a price list, as text.
#[derive(Clone, Debug)]
pub struct PriceRow {
    pub name: String,
    pub brand: Option<String>,
    pub barcode: Option<String>,
    /// The shelf price as decimal text.
    pub price: String,
    /// The price per reference unit as decimal text.
    pub unit_price: Option<String>,
    /// The reference unit: "l", "kg" or "kom".
    pub unit: Option<String>,
}

pub struct PriceRowView {
    pub name: Seq<char>,
    pub brand: Option<Seq<char>>,
    pub barcode: Option<Seq<char>>,
    pub price: Seq<char>,
    pub unit_price: Option<Seq<char>>,
    pub unit: Option<Seq<char>>,
}

pub open spec fn opt_string_view(o: Option<String>) -> Option<Seq<char>> {
    match o {
        Some(s) => Some(s@),
        None => None,
    }
}

impl View for PriceRow {
    type V = PriceRowView;

    open spec fn view(&self) -> PriceRowView {
        PriceRowView {
            name: self.name@,
            brand: opt_string_view(self.brand),
            barcode: opt_string_view(self.barcode),
            price: self.price@,
            unit_price: opt_string_view(self.unit_price),
            unit: opt_string_view(self.unit),
        }
    }
}

/// The trimmed cell of the given column, if the column exists and the cell is not blank.
pub open spec fn cell(row: Seq<Seq<char>>, column: Option<int>) -> Option<Seq<char>> {
    match column {
        Some(i) => field_spec(row, i),
        None => None,
    }
}

/// The usable content of one row: it needs a name (Eurospin's names starting
/// with `*` are deli-counter items and skipped) and a price cell (the second
/// price column is read where the first is blank).
pub open spec fn row_spec(
    c: Chain,
    cols: (int, Option<int>, Option<int>, Option<int>, Option<int>, Option<int>, Option<int>),
    row: Seq<Seq<char>>,
) -> Option<PriceRowView> {
    let (name_col, brand_col, barcode_col, price_col, sale_col, unit_price_col, unit_col) = cols;
    match field_spec(row, name_col) {
        None => None,
        Some(name) => if c == Chain::Eurospin && starts_with(name, "*"@) {
            None
        } else {
            let price = match cell(row, price_col) {
                Some(p) => Some(p),
                None => cell(row, sale_col),
            };
            match price {
                None => None,
                Some(p) => Some(
                    PriceRowView {
                        name,
                        brand: cell(row, brand_col),
                        barcode: cell(row, barcode_col),
                        price: comma_to_dot(trim(p)),
                        unit_price: match cell(row, unit_price_col) {
                            Some(u) => Some(comma_to_dot(trim(u))),
                            None => None,
                        },
                        unit: match cell(row, unit_col) {
                            Some(u) => unit_of_word(unit_word(u)),
                            None => None,
                        },
                    },
                ),
            }
        },
    }
}

pub open spec fn row_views(s: Seq<PriceRow>) -> Seq<PriceRowView> {
    s.map_values(|r: PriceRow| r@)
}

/// The usable rows of a table, in order.
pub open spec fn rows_spec(
    c: Chain,
    cols: (int, Option<int>, Option<int>, Option<int>, Option<int>, Option<int>, Option<int>),
    rows: Seq<Seq<Seq<char>>>,
) -> Seq<PriceRowView> {
    rows.filter_map(|r: Seq<Seq<char>>| row_spec(c, cols, r))
}

fn cell_of(row: &Vec<String>, column: Option<usize>) -> (r: Option<String>)
    ensures
        opt_string_view(r) == cell(string_views(row@), opt_int(column)),
{
    match column {
        Some(i) => field(row, i),
        None => None,
    }
}

/// The usable content of one row of a chain's price list.
pub fn price_row(c: Chain, cols: &PriceColumns, row: &Vec<String>) -> (r: Option<PriceRow>)
    ensures
        match r {
            Some(p) => row_spec(c, columns_tuple(*cols), string_views(row@)) == Some(p@),
            None => row_spec(c, columns_tuple(*cols), string_views(row@)) is None,
        },
{
    let name = match field(row, cols.name) {
        Some(n) => n,
        None => return None,
    };
    if c == Chain::Eurospin {
        let nc = chars_of(name.as_str());
        let star = chars_of("*");
        if chars_starts_with(&nc, &star) {
            return None;
        }
    }
    let price = match cell_of(row, cols.price) {
        Some(p) => p,
        None => match cell_of(row, cols.sale_price) {
            Some(p) => p,
            None => return None,
        },
    };
    let unit_price = match cell_of(row, cols.unit_price) {
        Some(u) => Some(decimal_text(u.as_str())),
        None => None,
    };
    let unit = match cell_of(row, cols.unit) {
        Some(u) => match normalize_unit(u.as_str()) {
            Some(w) => Some(w.to_owned()),
            None => None,
        },
        None => None,
    };
    Some(
        PriceRow {
            name,
            brand: cell_of(row, cols.brand),
            barcode: cell_of(row, cols.barcode),
            price: decimal_text(price.as_str()),
            unit_price,
            unit,
        },
    )
}

/// The usable rows of a table, in order.
pub fn price_rows(c: Chain, cols: &PriceColumns, rows: &Vec<Vec<String>>) -> (r: Vec<PriceRow>)
    ensures
        row_views(r@) == rows_spec(c, columns_tuple(*cols), rows_view(rows@)),
{
    let ghost rv = rows_view(rows@);
    let ghost f = |r: Seq<Seq<char>>| row_spec(c, columns_tuple(*cols), r);
    let mut out: Vec<PriceRow> = Vec::new();
    let mut j: usize = 0;
    assert(rv.take(0).filter_map(f) =~= Seq::<PriceRowView>::empty());
    while j < rows.len()
        invariant
            j <= rows.len(),
            rv == rows_view(rows@),
            f == (|r: Seq<Seq<char>>| row_spec(c, columns_tuple(*cols), r)),
            row_views(out@) == rv.take(j as int).filter_map(f),
        decreases rows.len() - j,
    {
        proof {
            rv.lemma_filter_map_take_succ(f, j as int);
        }
        assert(rv[j as int] == string_views(rows@[j as int]@));
        let ghost before = row_views(out@);
        match price_row(c, cols, &rows[j]) {
            Some(p) => {
                let ghost pv = p@;
                out.push(p);
                assert(row_views(out@) =~= before + seq![pv]);
            },
            None => {},
        }
        j = j + 1;
    }
    assert(rv.take(rv.len() as int) =~= rv);
    out
}

/// Where the reader starts and which delimiter it uses: KTC's lists are read
/// as they come with `;`; the others without a byte-order mark, with the
/// delimiter their first line suggests.
pub open spec fn reader_input(c: Chain, data: Seq<u8>) -> (Seq<u8>, u8) {
    if c == Chain::Ktc {
        (data, 59u8)
    } else {
        (without_bom(data), sniffed_delimiter(first_line(without_bom(data))))
    }
}

/// What reading a chain's price list gives: the usable rows, or the reason
/// the list is unusable (the header record unreadable, a needed column
/// missing, or a later record unreadable, checked in that order).
pub open spec fn price_list_spec(c: Chain, data: Seq<u8>) -> Option<Result<Seq<PriceRowView>, PriceListError>> {
    let (d, delim) = reader_input(c, data);
    match csv_records(d, delim) {
        None => None,
        Some((headers, rows)) => match columns_spec(c, header_keys(headers)) {
            Err(e) => Some(Err(e)),
            Ok(cols) => match rows {
                None => None,
                Some(rows) => Some(Ok(rows_spec(c, cols, rows))),
            },
        },
    }
}

/// Reads a chain's CSV price list into its usable rows.
pub fn parse_price_list(c: Chain, data: &[u8]) -> (r: Result<Vec<PriceRow>, PriceListError>)
    ensures
        match price_list_spec(c, data@) {
            None => r matches Err(PriceListError::Csv(_)),
            Some(Ok(rows)) => r matches Ok(v) && row_views(v@) == rows,
            Some(Err(e)) => r matches Err(e2) && e2 == e,
        },
{
    let (body, delim) = if c == Chain::Ktc {
        (data, 59u8)
    } else {
        sniff_csv(data)
    };
    let table = match read_csv(body, delim) {
        Ok(t) => t,
        Err(e) => return Err(PriceListError::Csv(e)),
    };
    let cols = match price_columns(c, &table.headers) {
        Ok(cols) => cols,
        Err(e) => return Err(e),
    };
    match table.rows {
        Ok(rows) => Ok(price_rows(c, &cols, &rows)),
        Err(e) => Err(PriceListError::Csv(e)),
    }
}

// ── Windows-1250 text ───────────────────────────────────────────────────────

/// What `encoding_rs::WINDOWS_1250.decode` gives for the bytes (a leading
/// byte-order mark selects its encoding instead; malformed input becomes
/// U+FFFD).
pub uninterp spec fn cp1250_text(raw: Seq<u8>) -> Seq<char>;

/// Decodes Windows-1250 bytes with `encoding_rs`. The contract claims only
/// that the text is `cp1250_text(raw)`, a function of the bytes.
#[verifier::external_body]
pub fn decode_cp1250(raw: &[u8]) -> (r: String)
    ensures
        r@ == cp1250_text(raw@),
{
    let (text, _, _) = encoding_rs::WINDOWS_1250.decode(raw);
    text.into_owned()
}

// ── Laws ────────────────────────────────────────────────────────────────────

/// The delimiter chosen is the most frequent of tab, semicolon and comma on
/// the first line.
pub proof fn lemma_sniffed_most_frequent(line: Seq<u8>)
    ensures
        count_of(line, sniffed_delimiter(line)) >= count_of(line, 9),
        count_of(line, sniffed_delimiter(line)) >= count_of(line, 59),
        count_of(line, sniffed_delimiter(line)) >= count_of(line, 44),
{
}

/// Every row read from a price list has a name and a shelf price, and a
/// Eurospin row's name does not mark a deli-counter item.
pub proof fn lemma_rows_are_usable(
    c: Chain,
    cols: (int, Option<int>, Option<int>, Option<int>, Option<int>, Option<int>, Option<int>),
    rows: Seq<Seq<Seq<char>>>,
)
    ensures
        forall|i: int|
            0 <= i < rows_spec(c, cols, rows).len() ==> {
                let r = #[trigger] rows_spec(c, cols, rows)[i];
                &&& r.name.len() > 0
                &&& r.price.len() > 0
                &&& (c == Chain::Eurospin ==> !starts_with(r.name, "*"@))
            },
{
    let f = |r: Seq<Seq<char>>| row_spec(c, cols, r);
    assert forall|i: int| 0 <= i < rows_spec(c, cols, rows).len() implies {
        let r = #[trigger] rows_spec(c, cols, rows)[i];
        &&& r.name.len() > 0
        &&& r.price.len() > 0
        &&& (c == Chain::Eurospin ==> !starts_with(r.name, "*"@))
    } by {
        let r = rows_spec(c, cols, rows)[i];
        assert(rows.filter_map(f).contains(r));
        rows.lemma_filter_map_contains(f, r);
        let t = choose|t: Seq<Seq<char>>| #[trigger] rows.contains(t) && f(t) == Some(r);
        let name_col = cols.0;
        let name = field_spec(t, name_col)->0;
        assert(r.name == name);
        let p = match cell(t, cols.3) {
            Some(p) => p,
            None => cell(t, cols.4)->0,
        };
        assert(trim(p).len() > 0) by {
            if cell(t, cols.3) is Some {
                lemma_trim_idempotent(t[cols.3->0]);
            } else {
                lemma_trim_idempotent(t[cols.4->0]);
            }
        }
        assert(r.price == comma_to_dot(trim(p)));
    }
}

} // verus!

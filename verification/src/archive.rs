//! Price lists that come inside ZIP archives (Lidl, Eurospin): choosing the
//! store's file among the archive's entries and reading it.
use std::io::Read;
use vstd::prelude::*;
use vstd::string::StringSliceAdditionalSpecFns;
use vstd::utf8::encode_utf8;
use crate::pricelist::{decode_cp1250, parse_price_list, price_list_spec, row_views, cp1250_text, Chain, PriceListError, PriceRow, PriceRowView};
use crate::text::{chars_contains, chars_ends_with, chars_of, contains, ends_with, to_lowercase, unicode_lowercase};

verus! {

// ── The zip crate ───────────────────────────────────────────────────────────

/// What `ZipArchive::new(..).len()` gives for the archive bytes (`None`: the
/// archive cannot be opened).
pub uninterp spec fn archive_len(bytes: Seq<u8>) -> Option<nat>;

/// What `by_index(i).name()` gives on the opened archive (`None`: an error).
pub uninterp spec fn archive_entry_name(bytes: Seq<u8>, i: nat) -> Option<Seq<char>>;

/// What reading entry `i` to its end gives (`None`: an error).
pub uninterp spec fn archive_entry_data(bytes: Seq<u8>, i: nat) -> Option<Seq<u8>>;

#[verifier::external_type_specification]
#[verifier::external_body]
pub struct ExZipError(zip::result::ZipError);

/// Opens the archive with `zip::ZipArchive::new` and returns `len()`; the
/// contract claims only that the outcome is `archive_len(bytes)`.
#[verifier::external_body]
fn entry_count(bytes: &[u8]) -> (r: Result<usize, zip::result::ZipError>)
    ensures
        match r {
            Ok(n) => archive_len(bytes@) == Some(n as nat),
            Err(_) => archive_len(bytes@) is None,
        },
{
    let archive = zip::ZipArchive::new(std::io::Cursor::new(bytes))?;
    Ok(archive.len())
}

/// Opens the archive and returns the name of entry `i` (`by_index(i)`, `name()`);
/// the contract claims only that the outcome is `archive_entry_name(bytes, i)`.
#[verifier::external_body]
fn entry_name(bytes: &[u8], i: usize) -> (r: Result<String, zip::result::ZipError>)
    ensures
        match r {
            Ok(s) => archive_entry_name(bytes@, i as nat) == Some(s@),
            Err(_) => archive_entry_name(bytes@, i as nat) is None,
        },
{
    let mut archive = zip::ZipArchive::new(std::io::Cursor::new(bytes))?;
    let entry = archive.by_index(i)?;
    Ok(entry.name().to_string())
}

/// Opens the archive and reads entry `i` to its end (`by_index(i)`,
/// `Read::read_to_end`); the contract claims only that the outcome is
/// `archive_entry_data(bytes, i)`.
#[verifier::external_body]
fn entry_data(bytes: &[u8], i: usize) -> (r: Result<Vec<u8>, zip::result::ZipError>)
    ensures
        match r {
            Ok(d) => archive_entry_data(bytes@, i as nat) == Some(d@),
            Err(_) => archive_entry_data(bytes@, i as nat) is None,
        },
{
    let mut archive = zip::ZipArchive::new(std::io::Cursor::new(bytes))?;
    let mut entry = archive.by_index(i)?;
    let mut raw = Vec::new();
    entry.read_to_end(&mut raw).map_err(zip::result::ZipError::Io)?;
    Ok(raw)
}

// ── Choosing the entry ──────────────────────────────────────────────────────

/// An entry that holds a price list.
pub open spec fn is_listing(c: Chain, name: Seq<char>) -> bool {
    let lower = unicode_lowercase(name);
    if c == Chain::Eurospin {
        ends_with(lower, ".csv"@) || ends_with(lower, ".txt"@)
    } else {
        ends_with(lower, ".csv"@)
    }
}

/// A listing of the Dugo Selo store.
pub open spec fn is_store_listing(c: Chain, name: Seq<char>) -> bool {
    let lower = unicode_lowercase(name);
    if c == Chain::Eurospin {
        contains(lower, "dugo_selo"@) || contains(lower, "dugo selo"@)
    } else {
        contains(name, "DugoSelo"@) || contains(name, "Dugo_Selo"@) || contains(lower, "dugo"@)
    }
}

/// The entry to read, scanning from entry `i` with `fallback` the first listing
/// seen so far: the first store listing, else the first listing. `None` when
/// an entry's name cannot be read; `Some(None)` when no entry is a listing.
pub open spec fn chosen_entry(c: Chain, bytes: Seq<u8>, i: nat, n: nat, fallback: Option<nat>) -> Option<Option<nat>>
    decreases n - i,
{
    if i >= n {
        Some(fallback)
    } else {
        match archive_entry_name(bytes, i) {
            None => None,
            Some(name) => if !is_listing(c, name) {
                chosen_entry(c, bytes, i + 1, n, fallback)
            } else if is_store_listing(c, name) {
                Some(Some(i))
            } else {
                chosen_entry(
                    c,
                    bytes,
                    i + 1,
                    n,
                    if fallback is None {
                        Some(i)
                    } else {
                        fallback
                    },
                )
            },
        }
    }
}

/// Why an archived price list could not be read.
#[derive(Debug)]
pub enum ArchiveError {
    /// The zip reader failed.
    Zip(zip::result::ZipError),
    /// No entry holds a price list.
    NoListing,
    /// The chosen listing is unusable.
    List(PriceListError),
}

fn entry_matches(c: Chain, name: &str) -> (r: (bool, bool))
    ensures
        r.0 == is_listing(c, name@),
        r.1 == is_store_listing(c, name@),
{
    let lower = to_lowercase(name);
    let lc = chars_of(lower.as_str());
    let nc = chars_of(name);
    if c == Chain::Eurospin {
        let listing = chars_ends_with(&lc, &chars_of(".csv")) || chars_ends_with(&lc, &chars_of(".txt"));
        let store = chars_contains(&lc, &chars_of("dugo_selo")) || chars_contains(&lc, &chars_of("dugo selo"));
        (listing, store)
    } else {
        let listing = chars_ends_with(&lc, &chars_of(".csv"));
        let store = chars_contains(&nc, &chars_of("DugoSelo")) || chars_contains(&nc, &chars_of("Dugo_Selo"))
            || chars_contains(&lc, &chars_of("dugo"));
        (listing, store)
    }
}

/// Picks the entry holding the store's price list: the first listing whose
/// name names Dugo Selo, else the first listing.
pub fn choose_entry(c: Chain, bytes: &[u8]) -> (r: Result<usize, ArchiveError>)
    ensures
        match archive_len(bytes@) {
            None => r matches Err(ArchiveError::Zip(_)),
            Some(n) => match chosen_entry(c, bytes@, 0, n, None) {
                None => r matches Err(ArchiveError::Zip(_)),
                Some(None) => r matches Err(ArchiveError::NoListing),
                Some(Some(i)) => r matches Ok(k) && k as nat == i,
            },
        },
{
    let n = match entry_count(bytes) {
        Ok(n) => n,
        Err(e) => return Err(ArchiveError::Zip(e)),
    };
    let mut fallback: Option<usize> = None;
    let mut i: usize = 0;
    while i < n
        invariant
            i <= n,
            archive_len(bytes@) == Some(n as nat),
            fallback matches Some(f) ==> f < i,
            chosen_entry(c, bytes@, 0, n as nat, None) == chosen_entry(
                c,
                bytes@,
                i as nat,
                n as nat,
                match fallback {
                    Some(f) => Some(f as nat),
                    None => None,
                },
            ),
        decreases n - i,
    {
        let name = match entry_name(bytes, i) {
            Ok(s) => s,
            Err(e) => return Err(ArchiveError::Zip(e)),
        };
        let (listing, store) = entry_matches(c, name.as_str());
        if listing {
            if store {
                return Ok(i);
            }
            if fallback.is_none() {
                fallback = Some(i);
            }
        }
        i = i + 1;
    }
    match fallback {
        Some(f) => Ok(f),
        None => Err(ArchiveError::NoListing),
    }
}

/// Reads the store's price list out of a chain's archive: the entry is chosen
/// as `choose_entry` does, decoded from Windows-1250 and parsed.
pub fn read_archived_list(c: Chain, bytes: &[u8]) -> (r: Result<Vec<PriceRow>, ArchiveError>)
    ensures
        match archive_len(bytes@) {
            None => r matches Err(ArchiveError::Zip(_)),
            Some(n) => match chosen_entry(c, bytes@, 0, n, None) {
                None => r matches Err(ArchiveError::Zip(_)),
                Some(None) => r matches Err(ArchiveError::NoListing),
                Some(Some(i)) => match archive_entry_data(bytes@, i) {
                    None => r matches Err(ArchiveError::Zip(_)),
                    Some(raw) => match price_list_spec(c, encode_utf8(cp1250_text(raw))) {
                        None => r matches Err(ArchiveError::List(PriceListError::Csv(_))),
                        Some(Ok(rows)) => r matches Ok(v) && row_views(v@) == rows,
                        Some(Err(e)) => r matches Err(ArchiveError::List(e2)) && e2 == e,
                    },
                },
            },
        },
{
    let idx = match choose_entry(c, bytes) {
        Ok(i) => i,
        Err(e) => return Err(e),
    };
    let raw = match entry_data(bytes, idx) {
        Ok(d) => d,
        Err(e) => return Err(ArchiveError::Zip(e)),
    };
    let text = decode_cp1250(raw.as_slice());
    match parse_price_list(c, text.as_str().as_bytes()) {
        Ok(rows) => Ok(rows),
        Err(e) => Err(ArchiveError::List(e)),
    }
}

} // verus!

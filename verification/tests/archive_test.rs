use fetchly::archive::{choose_entry, read_archived_list, ArchiveError};
use fetchly::pricelist::{Chain, PriceListError};
use std::io::{Cursor, Write};
use zip::write::SimpleFileOptions;
use zip::{CompressionMethod, ZipWriter};

fn archive(entries: &[(&str, &[u8])]) -> Vec<u8> {
    let mut w = ZipWriter::new(Cursor::new(Vec::new()));
    let opts = SimpleFileOptions::default().compression_method(CompressionMethod::Stored);
    for (name, data) in entries {
        w.start_file(*name, opts).unwrap();
        w.write_all(data).unwrap();
    }
    w.finish().unwrap().into_inner()
}

#[test]
fn lidl_prefers_the_dugo_selo_listing() {
    let z = archive(&[
        ("readme.txt", b"x"),
        ("Zagreb.csv", b"naziv;mpc\nA;1\n"),
        ("Lidl_DugoSelo_01.csv", b"naziv;mpc\nB;2\n"),
    ]);
    assert_eq!(choose_entry(Chain::Lidl, &z).unwrap(), 2);
    let rows = read_archived_list(Chain::Lidl, &z).unwrap();
    assert_eq!(rows.len(), 1);
    assert_eq!(rows[0].name, "B");
}

#[test]
fn falls_back_to_the_first_listing() {
    let z = archive(&[("notes.txt", b"x"), ("Zagreb.CSV", b"naziv;mpc\nA;1\n"), ("Split.csv", b"")]);
    assert_eq!(choose_entry(Chain::Lidl, &z).unwrap(), 1);
    assert_eq!(choose_entry(Chain::Eurospin, &z).unwrap(), 0);
}

#[test]
fn eurospin_reads_txt_listings_and_decodes_cp1250() {
    let z = archive(&[
        ("other.txt", b"naziv;mpc\nX;1\n"),
        ("cjenik_dugo selo.txt", b"naziv;mpc\n\x9Aljive;2,49\n*Sir;1\n"),
    ]);
    assert_eq!(choose_entry(Chain::Eurospin, &z).unwrap(), 1);
    let rows = read_archived_list(Chain::Eurospin, &z).unwrap();
    assert_eq!(rows.len(), 1);
    assert_eq!(rows[0].name, "\u{161}ljive");
    assert_eq!(rows[0].price, "2.49");
}

#[test]
fn archive_errors() {
    let none = archive(&[("a.pdf", b"x")]);
    assert!(matches!(choose_entry(Chain::Lidl, &none), Err(ArchiveError::NoListing)));
    assert!(matches!(choose_entry(Chain::Lidl, b"not a zip"), Err(ArchiveError::Zip(_))));
    assert!(matches!(read_archived_list(Chain::Lidl, b""), Err(ArchiveError::Zip(_))));
    let bad = archive(&[("dugo.csv", b"marka;mpc\nx;1\n")]);
    assert!(matches!(
        read_archived_list(Chain::Lidl, &bad),
        Err(ArchiveError::List(PriceListError::MissingNameColumn))
    ));
}

use fetchly::pricelist::{decode_cp1250, parse_price_list, sniff_csv, Chain, PriceListError, PriceRow};

fn row_names(rows: &[PriceRow]) -> Vec<&str> {
    rows.iter().map(|r| r.name.as_str()).collect()
}

#[test]
fn sniff_strips_bom_and_picks_delimiter() {
    let data = b"\xef\xbb\xbfa;b;c\n1,2;3;4\n";
    let (body, delim) = sniff_csv(data);
    assert_eq!(body, &data[3..]);
    assert_eq!(delim, b';');
    assert_eq!(sniff_csv(b"a\tb\tc\n").1, b'\t');
    assert_eq!(sniff_csv(b"a,b,c\n").1, b',');
    assert_eq!(sniff_csv(b"abc").1, b'\t');
    assert_eq!(sniff_csv(b"a,b;c\n").1, b';');
}

#[test]
fn konzum_rows() {
    let data = "naziv;marka;barkod;mpc;cijena_za_jedinicu_mjere;jedinica_mjere\n\
                Mlijeko;Dukat;385;1,29;1,29;L\n\
                ;Dukat;1;2,00;;\n\
                Kruh;;;;;\n\
                Jaja; ; ;3,10;;ko\n";
    let rows = parse_price_list(Chain::Konzum, data.as_bytes()).unwrap();
    assert_eq!(row_names(&rows), vec!["Mlijeko", "Jaja"]);
    assert_eq!(rows[0].brand.as_deref(), Some("Dukat"));
    assert_eq!(rows[0].barcode.as_deref(), Some("385"));
    assert_eq!(rows[0].price, "1.29");
    assert_eq!(rows[0].unit_price.as_deref(), Some("1.29"));
    assert_eq!(rows[0].unit.as_deref(), Some("l"));
    assert_eq!(rows[1].brand, None);
    assert_eq!(rows[1].unit.as_deref(), Some("kom"));
}

#[test]
fn missing_columns_are_errors() {
    let r = parse_price_list(Chain::Lidl, b"marka;mpc\nx;1\n");
    assert!(matches!(r, Err(PriceListError::MissingNameColumn)));
    let r = parse_price_list(Chain::Lidl, b"naziv;marka\nx;y\n");
    assert!(matches!(r, Err(PriceListError::MissingPriceColumn)));
}

#[test]
fn spar_reads_sale_price_when_regular_is_blank() {
    let data = "naziv;MPC (EUR);MPC za vrijeme posebnog oblika prodaje (EUR)\n\
                A;1,00;0,80\n\
                B;;0,50\n\
                C;;\n";
    let rows = parse_price_list(Chain::Spar, data.as_bytes()).unwrap();
    assert_eq!(row_names(&rows), vec!["A", "B"]);
    assert_eq!(rows[0].price, "1.00");
    assert_eq!(rows[1].price, "0.50");
    let r = parse_price_list(Chain::Spar, b"naziv;marka\nx;y\n");
    assert!(matches!(r, Err(PriceListError::MissingPriceColumn)));
    let only_sale = "naziv;MPC za vrijeme posebnog oblika prodaje (EUR)\nA;0,80\n";
    assert_eq!(parse_price_list(Chain::Spar, only_sale.as_bytes()).unwrap()[0].price, "0.80");
}

#[test]
fn eurospin_skips_deli_items() {
    let data = "naziv,maloprod.cijena(EUR)\n*Sir na kriške,9.99\nSir,5.49\n";
    let rows = parse_price_list(Chain::Eurospin, data.as_bytes()).unwrap();
    assert_eq!(row_names(&rows), vec!["Sir"]);
    let plain = "naziv,mpc\n*Sir na kriške,9.99\nSir,5.49\n";
    let rows = parse_price_list(Chain::Lidl, plain.as_bytes()).unwrap();
    assert_eq!(row_names(&rows), vec!["*Sir na kriške", "Sir"]);
}

#[test]
fn kaufland_unit_columns() {
    let data = "naziv\tmpc\tcijena jed.mj.\tjed.mj.\nVoda\t0,59\t0,39\t1,5l\n";
    let rows = parse_price_list(Chain::Kaufland, data.as_bytes()).unwrap();
    assert_eq!(rows[0].unit_price.as_deref(), Some("0.39"));
    assert_eq!(rows[0].unit.as_deref(), Some("l"));
}

#[test]
fn ktc_always_uses_semicolons() {
    let data = "naziv;mpc(a,b,c)\nA,b;1,5\n";
    let rows = parse_price_list(Chain::Ktc, data.as_bytes()).unwrap();
    assert_eq!(row_names(&rows), vec!["A,b"]);
    assert_eq!(rows[0].price, "1.5");
    let r = parse_price_list(Chain::Konzum, data.as_bytes());
    assert!(matches!(r, Err(PriceListError::MissingNameColumn)));
}

#[test]
fn flexible_record_lengths() {
    let data = "naziv;mpc;marka\nA;1\nB;2;C;extra\n";
    let rows = parse_price_list(Chain::Konzum, data.as_bytes()).unwrap();
    assert_eq!(row_names(&rows), vec!["A", "B"]);
    assert_eq!(rows[0].brand, None);
    assert_eq!(rows[1].brand.as_deref(), Some("C"));
}

#[test]
fn unreadable_text_is_a_csv_error() {
    let data = b"naziv;mpc\nA;\xff\xfe\n";
    assert!(matches!(parse_price_list(Chain::Konzum, data), Err(PriceListError::Csv(_))));
}

#[test]
fn cp1250_decoding() {
    assert_eq!(decode_cp1250(&[0x8A, 0x9A, 0xE8, 0xE6, 0x9E, 0xF0]), "\u{160}\u{161}\u{10D}\u{107}\u{17E}\u{111}");
    assert_eq!(decode_cp1250(&[0xC8, 0xE8]), "Čč");
    assert_eq!(decode_cp1250(b"Mlijeko"), "Mlijeko");
}

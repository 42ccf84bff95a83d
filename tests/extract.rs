use std::collections::BTreeMap;

use pdf_text::{
    build_transcript, interpret_page, interpret_pages, merge_text_rows, parse_unicode_map,
    reclassify_rows, superscript_offset, ExtractError, Font, FontCache, OpCode, Operand,
    Operation, TextChunk, UnicodeTable,
};

fn chunk(text: &str, x: i32, y: i32) -> TextChunk {
    TextChunk::new(text.to_string(), x, y)
}

fn texts(rows: &[TextChunk]) -> Vec<(String, i32, i32)> {
    rows.iter().map(|c| (c.text.clone(), c.x, c.y)).collect()
}

fn hex(code: u16) -> Operand {
    Operand::Str(code.to_be_bytes().to_vec())
}

fn op(opcode: OpCode, operands: Vec<Operand>) -> Operation {
    Operation::new(opcode, operands)
}

fn matrix(x: i64, y: i64) -> Operation {
    op(
        OpCode::SetTextMatrix,
        vec![
            Operand::Integer(1),
            Operand::Integer(0),
            Operand::Integer(0),
            Operand::Integer(1),
            Operand::Integer(x),
            Operand::Integer(y),
        ],
    )
}

fn show(bytes: &[u8]) -> Operation {
    op(OpCode::ShowText, vec![Operand::Str(bytes.to_vec())])
}

fn select(name: &str) -> Operation {
    op(
        OpCode::SetFont,
        vec![Operand::Name(name.as_bytes().to_vec()), Operand::Integer(12)],
    )
}

fn win_ansi_fonts(name: &str) -> FontCache {
    let mut fonts = FontCache::new();
    fonts.insert(
        name.as_bytes().to_vec(),
        Font::with_encoding("WinAnsiEncoding".to_string()),
    );
    fonts
}

fn table_font(pairs: &[(u32, u32)]) -> Font {
    let mut table = BTreeMap::new();
    for &(k, v) in pairs {
        table.insert(k, v);
    }
    Font::with_table("Identity-H".to_string(), table)
}

#[test]
fn decode_uses_table_entry() {
    let font = table_font(&[(0x0041, 0x0042)]);
    assert_eq!(font.decode(&[0x00, 0x41]), Ok("B".to_string()));
}

#[test]
fn decode_falls_back_to_code_itself() {
    let font = table_font(&[(0x0041, 0x0042)]);
    assert_eq!(font.decode(&[0x00, 0x43, 0x00, 0x41]), Ok("CB".to_string()));
    assert_eq!(font.decode(&[0x20, 0xAC]), Ok("\u{20AC}".to_string()));
}

#[test]
fn decode_rejects_odd_byte_count() {
    let font = table_font(&[]);
    assert_eq!(font.decode(&[0x00, 0x41, 0x00]), Err(ExtractError::MalformedText));
}

#[test]
fn decode_rejects_surrogate_scalar() {
    let font = table_font(&[(0x0041, 0xD800)]);
    assert_eq!(font.decode(&[0x00, 0x41]), Err(ExtractError::MalformedText));
    let empty = table_font(&[]);
    assert_eq!(empty.decode(&[0xDC, 0x00]), Err(ExtractError::MalformedText));
}

#[test]
fn decode_empty_with_table() {
    let font = table_font(&[(1, 2)]);
    assert_eq!(font.decode(&[]), Ok(String::new()));
}

#[test]
fn decode_legacy_encoding() {
    let font = Font::with_encoding("WinAnsiEncoding".to_string());
    assert_eq!(font.decode(b"Hi"), Ok("Hi".to_string()));
    assert_eq!(font.decode(&[0x80]), Ok("\u{20AC}".to_string()));
}

#[test]
fn cmap_pairs_are_read() {
    let ops = vec![
        op(OpCode::Other, vec![Operand::Integer(2)]),
        op(OpCode::EndBfChar, vec![hex(0x0041), hex(0x0042), hex(0x0043), hex(0x0044)]),
    ];
    let map = parse_unicode_map(&ops).unwrap();
    let expected: BTreeMap<u32, u32> = [(0x41, 0x42), (0x43, 0x44)].into_iter().collect();
    assert_eq!(map, expected);
}

#[test]
fn cmap_later_pair_wins() {
    let ops = vec![
        op(OpCode::EndBfChar, vec![hex(1), hex(0x61)]),
        op(OpCode::EndBfChar, vec![hex(1), hex(0x62), hex(2), hex(0x63)]),
    ];
    let map = parse_unicode_map(&ops).unwrap();
    let expected: BTreeMap<u32, u32> = [(1, 0x62), (2, 0x63)].into_iter().collect();
    assert_eq!(map, expected);
}

#[test]
fn cmap_ignores_other_instructions() {
    let ops = vec![op(OpCode::Other, vec![hex(1)]), op(OpCode::ShowText, vec![hex(7)])];
    assert_eq!(parse_unicode_map(&ops), Ok(BTreeMap::new()));
}

#[test]
fn cmap_odd_operand_count_is_malformed() {
    let ops = vec![op(OpCode::EndBfChar, vec![hex(0x41), hex(0x42), hex(0x43)])];
    assert_eq!(parse_unicode_map(&ops), Err(ExtractError::MalformedFont));
}

#[test]
fn cmap_wrong_width_is_malformed() {
    let ops = vec![op(
        OpCode::EndBfChar,
        vec![Operand::Str(vec![0x00, 0x41, 0x00]), hex(0x42)],
    )];
    assert_eq!(parse_unicode_map(&ops), Err(ExtractError::MalformedFont));
    let ops = vec![op(OpCode::EndBfChar, vec![Operand::Integer(65), hex(0x42)])];
    assert_eq!(parse_unicode_map(&ops), Err(ExtractError::MalformedFont));
}

#[test]
fn resolve_font_variants() {
    let font = Font::resolve("WinAnsiEncoding".to_string(), UnicodeTable::Absent).unwrap();
    assert!(font.unicode_map.is_none());
    assert_eq!(
        Font::resolve("X".to_string(), UnicodeTable::Unresolved).unwrap_err(),
        ExtractError::UnresolvableReference
    );
    let table = vec![op(OpCode::EndBfChar, vec![hex(1), hex(0x41)])];
    let font = Font::resolve("X".to_string(), UnicodeTable::Present(table)).unwrap();
    assert_eq!(font.decode(&[0, 1]), Ok("A".to_string()));
    let bad = vec![op(OpCode::EndBfChar, vec![hex(1)])];
    assert_eq!(
        Font::resolve("X".to_string(), UnicodeTable::Present(bad)).unwrap_err(),
        ExtractError::MalformedFont
    );
}

#[test]
fn opcode_names() {
    assert_eq!(OpCode::from_name("BT"), OpCode::BeginText);
    assert_eq!(OpCode::from_name("ET"), OpCode::EndText);
    assert_eq!(OpCode::from_name("Tf"), OpCode::SetFont);
    assert_eq!(OpCode::from_name("Tj"), OpCode::ShowText);
    assert_eq!(OpCode::from_name("Tm"), OpCode::SetTextMatrix);
    assert_eq!(OpCode::from_name("endbfchar"), OpCode::EndBfChar);
    assert_eq!(OpCode::from_name("TJ"), OpCode::Other);
    assert_eq!(OpCode::from_name("B"), OpCode::Other);
}

#[test]
fn font_cache_keeps_first_font() {
    let mut fonts = FontCache::new();
    assert!(!fonts.contains(&b"F1".to_vec()));
    fonts.insert(b"F1".to_vec(), Font::with_encoding("A".to_string()));
    fonts.insert(b"F1".to_vec(), Font::with_encoding("B".to_string()));
    fonts.insert(b"F2".to_vec(), Font::with_encoding("C".to_string()));
    assert!(fonts.contains(&b"F1".to_vec()));
    assert_eq!(fonts.get(&b"F1".to_vec()).unwrap().encoding, "A");
    assert_eq!(fonts.get(&b"F2".to_vec()).unwrap().encoding, "C");
    assert!(fonts.get(&b"F3".to_vec()).is_none());
}

#[test]
fn merge_rows_scenario() {
    let rows = merge_text_rows(&vec![chunk("A", 0, 100), chunk("B", 0, 100), chunk("C", 5, 90)]);
    assert_eq!(
        texts(&rows),
        vec![("AB".to_string(), 0, 100), ("C".to_string(), 5, 90)]
    );
}

#[test]
fn merge_rows_keeps_input_order() {
    let rows = merge_text_rows(&vec![
        chunk("a", 0, 90),
        chunk("b", 3, 100),
        chunk("c", 7, 100),
        chunk("d", 1, 90),
    ]);
    assert_eq!(
        texts(&rows),
        vec![
            ("a".to_string(), 0, 90),
            ("bc".to_string(), 3, 100),
            ("d".to_string(), 1, 90)
        ]
    );
    assert!(merge_text_rows(&vec![]).is_empty());
}

#[test]
fn merge_rows_is_idempotent() {
    let input = vec![
        chunk("x", 0, 10),
        chunk("y", 1, 10),
        chunk("z", 2, 20),
        chunk("w", 3, 10),
        chunk("v", 4, 10),
    ];
    let once = merge_text_rows(&input);
    let twice = merge_text_rows(&once);
    assert_eq!(texts(&once), texts(&twice));
}

#[test]
fn superscript_offset_most_frequent() {
    let ys = [100, 98, 100, 98, 100, 98, 100, 98, 100, 98, 101, 98];
    let rows: Vec<TextChunk> = ys.iter().enumerate().map(|(i, &y)| chunk("t", i as i32, y)).collect();
    assert_eq!(superscript_offset(&rows), Ok(2));
}

#[test]
fn superscript_offset_tie_takes_smaller() {
    let rows = vec![chunk("a", 0, 100), chunk("b", 0, 97), chunk("c", 0, 110), chunk("d", 0, 108)];
    assert_eq!(superscript_offset(&rows), Ok(2));
}

#[test]
fn superscript_offset_needs_an_upward_step() {
    let rows = vec![chunk("a", 0, 90), chunk("b", 0, 100), chunk("c", 0, 100)];
    assert_eq!(superscript_offset(&rows), Err(ExtractError::NoSuperscriptOffset));
    assert_eq!(superscript_offset(&vec![]), Err(ExtractError::NoSuperscriptOffset));
}

#[test]
fn reclassify_superscript_scenario() {
    let rows = vec![chunk("body", 0, 100), chunk("2", 10, 98), chunk("next", 20, 90)];
    let out = reclassify_rows(&rows, 2);
    assert_eq!(
        texts(&out),
        vec![
            ("body".to_string(), 0, 100),
            ("<sup>2</sup>".to_string(), 10, 100),
            ("next".to_string(), 20, 90)
        ]
    );
}

#[test]
fn reclassify_subscript_and_new_line() {
    let rows = vec![
        chunk("H", 0, 100),
        chunk("2", 5, 101),
        chunk("O", 8, 100),
        chunk("line", 0, 99),
    ];
    let out = reclassify_rows(&rows, 2);
    assert_eq!(
        texts(&out),
        vec![
            ("H".to_string(), 0, 100),
            ("<sub>2</sub>".to_string(), 5, 100),
            ("O".to_string(), 8, 100),
            ("line".to_string(), 0, 99)
        ]
    );
}

#[test]
fn end_to_end_single_line() {
    let page = vec![
        op(OpCode::BeginText, vec![]),
        select("F1"),
        matrix(10, 100),
        show(b"Hi"),
        op(OpCode::EndText, vec![]),
    ];
    let t = build_transcript(&vec![page], &win_ansi_fonts("F1")).unwrap();
    assert_eq!(t.lines(), vec!["Hi".to_string()]);
    assert_eq!(t.superscript_offset, None);
    assert_eq!(texts(&t.rows), vec![("Hi".to_string(), 10, 100)]);
}

#[test]
fn end_to_end_with_superscript() {
    let block = |x: i64, y: i64, s: &[u8]| {
        vec![
            op(OpCode::BeginText, vec![]),
            select("F1"),
            matrix(x, y),
            show(s),
            op(OpCode::EndText, vec![]),
        ]
    };
    let mut page1 = block(0, 100, b"E=mc");
    page1.extend(block(40, 98, b"2"));
    page1.extend(block(0, 90, b"next"));
    let page2 = block(0, 80, b"last");
    let t = build_transcript(&vec![page1, page2], &win_ansi_fonts("F1")).unwrap();
    assert_eq!(t.superscript_offset, Some(2));
    assert_eq!(
        t.lines(),
        vec![
            "E=mc<sup>2</sup>".to_string(),
            "next".to_string(),
            "last".to_string()
        ]
    );
}

#[test]
fn show_text_without_font_fails() {
    let page = vec![op(OpCode::BeginText, vec![]), show(b"Hi"), op(OpCode::EndText, vec![])];
    let fonts = win_ansi_fonts("F1");
    assert_eq!(interpret_page(&page, &fonts).unwrap_err(), ExtractError::MissingFont);
    let ok_page = vec![
        op(OpCode::BeginText, vec![]),
        select("F1"),
        show(b"a"),
        op(OpCode::EndText, vec![]),
    ];
    assert_eq!(
        interpret_pages(&vec![ok_page, page], &fonts).unwrap_err(),
        ExtractError::MissingFont
    );
}

#[test]
fn show_text_with_unknown_font_fails() {
    let page = vec![op(OpCode::BeginText, vec![]), select("F9"), show(b"Hi")];
    assert_eq!(
        interpret_page(&page, &win_ansi_fonts("F1")).unwrap_err(),
        ExtractError::MissingFont
    );
}

#[test]
fn unknown_font_without_text_is_fine() {
    let page = vec![op(OpCode::BeginText, vec![]), select("F9"), op(OpCode::EndText, vec![])];
    let out = interpret_page(&page, &win_ansi_fonts("F1")).unwrap();
    assert_eq!(texts(&out), vec![(String::new(), 0, 0)]);
}

#[test]
fn show_text_outside_block_is_ignored() {
    let page = vec![
        show(b"zz"),
        op(OpCode::BeginText, vec![]),
        select("F1"),
        show(b"ab"),
        show(b"cd"),
        op(OpCode::EndText, vec![]),
        show(b"zz"),
    ];
    let out = interpret_page(&page, &win_ansi_fonts("F1")).unwrap();
    assert_eq!(texts(&out), vec![("abcd".to_string(), 0, 0)]);
}

#[test]
fn matrix_reads_numbers() {
    let real = op(
        OpCode::SetTextMatrix,
        vec![
            Operand::Real(1),
            Operand::Real(0),
            Operand::Real(0),
            Operand::Real(1),
            Operand::Real(-7),
            Operand::Integer((1i64 << 32) + 5),
        ],
    );
    let page = vec![op(OpCode::BeginText, vec![]), real, op(OpCode::EndText, vec![])];
    let out = interpret_page(&page, &FontCache::new()).unwrap();
    assert_eq!(texts(&out), vec![(String::new(), -7, 5)]);
}

#[test]
fn matrix_with_non_number_fails() {
    let bad = op(
        OpCode::SetTextMatrix,
        vec![
            Operand::Integer(1),
            Operand::Integer(0),
            Operand::Integer(0),
            Operand::Integer(1),
            Operand::Name(b"x".to_vec()),
            Operand::Integer(5),
        ],
    );
    assert_eq!(
        interpret_page(&vec![bad], &FontCache::new()).unwrap_err(),
        ExtractError::MalformedMatrix
    );
    let short = op(OpCode::SetTextMatrix, vec![Operand::Integer(1)]);
    assert_eq!(
        interpret_page(&vec![short], &FontCache::new()).unwrap_err(),
        ExtractError::MalformedMatrix
    );
}

#[test]
fn pages_keep_page_order() {
    let fonts = win_ansi_fonts("F1");
    let page = |y: i64, s: &[u8]| {
        vec![op(OpCode::BeginText, vec![]), select("F1"), matrix(0, y), show(s), op(OpCode::EndText, vec![])]
    };
    let out = interpret_pages(&vec![page(10, b"p1"), page(50, b"p2")], &fonts).unwrap();
    assert_eq!(
        texts(&out),
        vec![("p1".to_string(), 0, 10), ("p2".to_string(), 0, 50)]
    );
}

#[test]
fn table_font_in_page() {
    let mut fonts = FontCache::new();
    fonts.insert(b"T".to_vec(), table_font(&[(1, 0x48), (2, 0x69)]));
    let page = vec![op(OpCode::BeginText, vec![]), select("T"), show(&[0, 1, 0, 2]), op(OpCode::EndText, vec![])];
    let out = interpret_page(&page, &fonts).unwrap();
    assert_eq!(texts(&out), vec![("Hi".to_string(), 0, 0)]);
    let odd = vec![op(OpCode::BeginText, vec![]), select("T"), show(&[0, 1, 0])];
    assert_eq!(interpret_page(&odd, &fonts).unwrap_err(), ExtractError::MalformedText);
}

use crossload::position::{read_position, Position};
use crossload::epub;
use crossload::format::{name_title, validate, Format};
use crossload::history::{read, read_lines, record, stamp, MAX_ENTRIES};
use crossload::inventory;
use crossload::kepub::{kepubify, resolve, spans};
use crossload::metadata::{apply, edited_package, Edit};
use crossload::profile::{for_device, known, x4};
use std::io::{Cursor, Read, Write};
use zip::write::SimpleFileOptions;
use zip::{CompressionMethod, ZipArchive, ZipWriter};

fn zipped(names: &[&str]) -> Vec<u8> {
    let mut writer = ZipWriter::new(Cursor::new(Vec::new()));
    for name in names {
        writer
            .start_file::<_, ()>(*name, SimpleFileOptions::default())
            .unwrap();
        writer.write_all(b"page").unwrap();
    }
    writer.finish().unwrap().into_inner()
}

#[test]
fn a_name_claims_a_format_and_the_contents_have_to_agree() {
    assert_eq!(Format::of("Dune.EPUB"), Some(Format::Epub));
    assert_eq!(Format::of("paper.v2.pdf"), Some(Format::Pdf));
    assert_eq!(Format::of("comic.cbz"), Some(Format::Cbz));
    // A format we do not carry, and a file with nothing to claim.
    assert_eq!(Format::of("comic.cbr"), None);
    assert_eq!(Format::of("README"), None);

    let mut pdf = b"%PDF-1.7\nbody".to_vec();
    assert!(validate(Format::Pdf, &pdf).is_err(), "truncated");
    pdf.extend_from_slice(b"\ntrailer\n%%EOF\n");
    assert!(validate(Format::Pdf, &pdf).is_ok());
    assert!(validate(Format::Pdf, &zipped(&["001.jpg"])).is_err());

    assert!(validate(Format::Cbz, &zipped(&["001.jpg", "002.png"])).is_ok());
    // A ZIP of anything else is not a comic, and neither is a PDF.
    assert!(validate(Format::Cbz, &zipped(&["notes.txt"])).is_err());
    assert!(validate(Format::Cbz, &pdf).is_err());
}

#[test]
fn a_format_without_metadata_is_titled_by_its_file() {
    assert_eq!(name_title("/books/Some Paper.pdf"), "Some Paper");
    assert_eq!(name_title("Comics/Vol 1.cbz"), "Vol 1");
    assert_eq!(name_title("/x/archive.tar.gz"), "archive.tar");
    assert_eq!(name_title("/x/.pdf"), "Untitled");
}

#[test]
fn a_time_reads_as_a_date_without_a_calendar_crate() {
    assert_eq!(stamp(0), "1970-01-01 00:00");
    assert_eq!(stamp(1_000_000_000), "2001-09-09 01:46");
    // A leap day, and the turn of a century that is not a leap year.
    assert_eq!(stamp(1_709_164_800), "2024-02-29 00:00");
    assert_eq!(stamp(951_782_400), "2000-02-29 00:00");
}

#[test]
fn far_dates_are_in_the_calendar_too() {
    // The end of a century that is not a leap year, and the day after a cycle.
    assert_eq!(stamp(4_107_542_399), "2100-02-28 23:59");
    assert_eq!(stamp(4_107_542_400), "2100-03-01 00:00");
    assert_eq!(stamp(12_622_780_800), "2370-01-01 00:00");
}

#[test]
fn the_record_keeps_its_newest_lines() {
    let lines: Vec<String> = (0..MAX_ENTRIES).map(|i| format!("line {i}")).collect();
    let kept = record(&lines, "newest").unwrap();
    assert_eq!(kept.lines().count(), MAX_ENTRIES);
    assert!(kept.starts_with("line 1\n"));
    assert!(kept.ends_with("\nnewest\n"));
    assert_eq!(record(&lines[1..].to_vec(), "newest"), None);
    assert_eq!(
        read(vec!["a".into(), "b".into(), "c".into()], 2),
        ["b", "c"]
    );
    assert_eq!(
        read_lines(vec!["a".into(), "  ".into(), "b".into()]),
        ["a", "b"]
    );
}

#[test]
fn a_screen_is_named_only_when_its_size_is_known() {
    assert_eq!(for_device("X4"), Some(x4()));
    assert_eq!(for_device(" x4 "), Some(x4()));
    // Not a guess: a device nobody has measured has no profile, and the
    // caller has to decide what to do about that.
    assert_eq!(for_device("M5Paper"), None);
    assert_eq!(known(), "X4");
    // The marker is frozen; copies already on devices are recognized by it.
    assert_eq!(x4().marker, "xteink-x4-images-v1:480x800:gray:jpeg85");
}

#[test]
fn prose_is_divided_and_everything_else_is_carried_across() {
    let document = "<?xml version=\"1.0\" encoding=\"utf-8\"?>\n\
        <html xmlns=\"http://www.w3.org/1999/xhtml\"><head><title>A &amp; B</title>\
        <style>p { color: red; }</style></head>\
        <body><p>One sentence. And a second one.</p>\
        <p>With <em>emphasis</em> inside it.</p>\
        <script>if (a &lt; b) { }</script>\
        <!-- a comment --></body></html>";
    let divided = spans(document);
    // Still a document, which is the whole safety of this.
    assert!(roxmltree::Document::parse(&divided).is_ok(), "{divided}");
    // The head is prologue and is left alone, entities and all.
    assert!(divided.contains("<title>A &amp; B</title>"), "{divided}");
    // Style and script hold machinery, not prose.
    assert!(
        divided.contains("<style>p { color: red; }</style>"),
        "{divided}"
    );
    assert!(
        divided.contains("<script>if (a &lt; b) { }</script>"),
        "{divided}"
    );
    assert!(divided.contains("<!-- a comment -->"), "{divided}");
    // Two sentences become two spans, and each id is its own.
    assert!(divided.contains(">One sentence. </span>"), "{divided}");
    assert!(divided.contains(">And a second one.</span>"), "{divided}");
    assert!(divided.contains("id=\"kobo.1.1\""), "{divided}");
    assert!(divided.contains("id=\"kobo.1.2\""), "{divided}");
    // Emphasis splits a run, and both halves are still counted.
    assert!(divided.contains("<em>"), "{divided}");

    // Not a byte of the text itself is lost.
    let text = |markup: &str| {
        let doc = roxmltree::Document::parse(markup).unwrap();
        doc.descendants()
            .filter(|n| n.is_text())
            .filter_map(|n| n.text())
            .collect::<String>()
    };
    assert_eq!(text(document), text(&divided));
}

fn packed(members: &[(&str, &str)]) -> Vec<u8> {
    let mut zip = ZipWriter::new(Cursor::new(Vec::new()));
    let options = SimpleFileOptions::default();
    for (name, body) in members {
        zip.start_file::<_, ()>(*name, options).unwrap();
        zip.write_all(body.as_bytes()).unwrap();
    }
    zip.finish().unwrap().into_inner()
}

fn member(data: &[u8], name: &str) -> String {
    let mut archive = ZipArchive::new(Cursor::new(data)).unwrap();
    let mut text = String::new();
    archive
        .by_name(name)
        .unwrap()
        .read_to_string(&mut text)
        .unwrap();
    text
}

#[test]
fn a_book_that_is_already_divided_is_left_alone() {
    // Dividing a kepub again would nest a second set of spans inside the
    // first, and the Kobo would count the same words twice.
    let divided = "<html xmlns=\"http://www.w3.org/1999/xhtml\"><body>\
        <p><span class=\"koboSpan\" id=\"kobo.1.1\">Already counted.</span></p>\
        </body></html>";
    let data = packed(&[
        ("mimetype", "application/epub+zip"),
        (
            "META-INF/container.xml",
            "<container><rootfiles><rootfile full-path=\"b.opf\"/></rootfiles></container>",
        ),
        (
            "b.opf",
            "<package><metadata/><manifest><item id=\"a\" href=\"a.xhtml\" \
             media-type=\"application/xhtml+xml\"/></manifest>\
             <spine><itemref idref=\"a\"/></spine></package>",
        ),
        ("a.xhtml", divided),
    ]);
    let out = kepubify(&data).unwrap();
    let text = member(&out, "a.xhtml");
    assert_eq!(text, divided);
    assert_eq!(text.matches("koboSpan").count(), 1, "{text}");
}

#[test]
fn a_document_that_does_not_parse_is_left_exactly_as_it_was() {
    // Nothing here can reason about markup it cannot read.
    let broken = "<html><body><p>unclosed";
    assert!(roxmltree::Document::parse(broken).is_err());
    let data = packed(&[
        ("mimetype", "application/epub+zip"),
        (
            "META-INF/container.xml",
            "<container><rootfiles><rootfile full-path=\"b.opf\"/></rootfiles></container>",
        ),
        ("b.opf", "<package><metadata/><manifest/><spine/></package>"),
        ("broken.xhtml", broken),
    ]);
    // Nothing could be divided, so nothing is offered as divided.
    let refused = kepubify(&data).unwrap_err();
    assert!(refused.contains("No readable text documents"), "{refused}");
}

/// The package document of a book, which is deflated inside it.
fn package_of(data: &[u8]) -> String {
    member(data, "b.opf")
}

fn book(metadata: &str) -> Vec<u8> {
    let opf = format!(
        "<?xml version=\"1.0\" encoding=\"utf-8\"?>\
         <package xmlns=\"http://www.idpf.org/2007/opf\" version=\"3.0\" \
         unique-identifier=\"i\"><metadata \
         xmlns:dc=\"http://purl.org/dc/elements/1.1/\">{metadata}</metadata>\
         <manifest><item id=\"c\" href=\"c.xhtml\" \
         media-type=\"application/xhtml+xml\"/></manifest>\
         <spine><itemref idref=\"c\"/></spine></package>"
    );
    let mut zip = ZipWriter::new(Cursor::new(Vec::new()));
    let stored = SimpleFileOptions::default().compression_method(CompressionMethod::Stored);
    for (name, body) in [
        ("mimetype", "application/epub+zip".to_owned()),
        (
            "META-INF/container.xml",
            "<container version=\"1.0\" \
             xmlns=\"urn:oasis:names:tc:opendocument:xmlns:container\"><rootfiles>\
             <rootfile full-path=\"b.opf\" \
             media-type=\"application/oebps-package+xml\"/></rootfiles></container>"
                .to_owned(),
        ),
        ("b.opf", opf),
        (
            "c.xhtml",
            "<html xmlns=\"http://www.w3.org/1999/xhtml\"><head><title>c</title></head>\
             <body><p>The text of it.</p></body></html>"
                .to_owned(),
        ),
    ] {
        zip.start_file::<_, ()>(name, stored).unwrap();
        zip.write_all(body.as_bytes()).unwrap();
    }
    zip.finish().unwrap().into_inner()
}

fn at(whole: u128, fraction: &str) -> Option<Position> {
    Some(Position::Number {
        negative: false,
        whole,
        fraction: fraction.to_owned(),
    })
}

#[test]
fn a_correction_changes_what_is_asked_for_and_nothing_else() {
    let before = book(
        "<dc:identifier id=\"i\">urn:uuid:1</dc:identifier>\
         <dc:title>Calibans strijd</dc:title>\
         <dc:creator>James Corey</dc:creator><dc:language>nl</dc:language>",
    );
    let after = apply(
        &before,
        &Edit {
            author: Some("James S. A. Corey".into()),
            series: Some("The Expanse".into()),
            series_index: Some("2".into()),
            ..Edit::default()
        },
    )
    .unwrap();

    let read = epub::metadata(&after).unwrap().unwrap();
    assert_eq!(read.author, "James S. A. Corey");
    assert_eq!(read.series.as_deref(), Some("The Expanse"));
    assert_eq!(read.series_index, at(2, ""));
    // What was not named is left alone.
    assert_eq!(read.title.as_deref(), Some("Calibans strijd"));
    assert!(read.identifiers.iter().any(|i| i == "urn:uuid:1"));

    // And the book is the same book: only its metadata moved, so a copy of
    // it already on a reader still matches.
    let a = inventory::identity(&before);
    let b = inventory::identity(&after);
    assert_ne!(a.sha256, b.sha256);
    assert_eq!(a.resources, b.resources);
    assert!(a.matches(&b));
}

#[test]
fn a_series_written_twice_is_read_back_the_same_either_way() {
    // Calibre's pair and the EPUB 3 collection both go in, so whichever a
    // reader looks for, it finds the same answer.
    let after = apply(
        &book("<dc:title>A</dc:title><dc:creator>B</dc:creator>"),
        &Edit {
            series: Some("Dune".into()),
            series_index: Some("1.5".into()),
            ..Edit::default()
        },
    )
    .unwrap();
    let text = package_of(&after);
    assert!(text.contains("calibre:series\" content=\"Dune\""), "{text}");
    assert!(text.contains("belongs-to-collection"), "{text}");
    assert!(text.contains("group-position\">1.5"), "{text}");
    assert_eq!(
        epub::metadata(&after).unwrap().unwrap().series_index,
        at(1, "5")
    );

    // Correcting it again replaces rather than accumulates.
    let twice = apply(
        &after,
        &Edit {
            series: Some("Dune Chronicles".into()),
            series_index: Some("2".into()),
            ..Edit::default()
        },
    )
    .unwrap();
    let text = package_of(&twice);
    assert_eq!(text.matches("calibre:series\"").count(), 1, "{text}");
    assert_eq!(text.matches("belongs-to-collection").count(), 1, "{text}");
    assert!(!text.contains(">Dune<"), "{text}");
}

#[test]
fn a_position_that_is_not_a_number_is_refused() {
    let refused = apply(
        &book("<dc:title>A</dc:title>"),
        &Edit {
            series: Some("Dune".into()),
            series_index: Some("second".into()),
            ..Edit::default()
        },
    )
    .unwrap_err();
    assert!(refused.contains("has to be a number"), "{refused}");
    assert!(apply(&book("<dc:title>A</dc:title>"), &Edit::default()).is_err());
}

#[test]
fn a_repacked_copy_is_the_same_edition() {
    let metadata = "<dc:title>A</dc:title><dc:creator>B</dc:creator>";
    let data = book(metadata);
    let members = [
        ("c.xhtml", member(&data, "c.xhtml")),
        ("b.opf", member(&data, "b.opf")),
        ("META-INF/container.xml", member(&data, "META-INF/container.xml")),
        ("mimetype", member(&data, "mimetype")),
    ];
    let turned: Vec<(&str, &str)> = members.iter().map(|(n, b)| (*n, b.as_str())).collect();
    let again = packed(&turned);
    let (a, b) = (inventory::identity(&data), inventory::identity(&again));
    assert_ne!(a.sha256, b.sha256);
    assert!(a.resources.is_some());
    assert_eq!(a.resources, b.resources);
    // Another text is another book.
    let mut changed = turned.clone();
    changed[0].1 = "<html xmlns=\"http://www.w3.org/1999/xhtml\"><body/></html>";
    assert!(!inventory::identity(&packed(&changed)).matches(&a));
    // What is no book is recognized by its bytes alone.
    let plain = inventory::identity(b"plain bytes");
    assert_eq!(plain.resources, None);
    assert_eq!(
        plain.sha256,
        "4ce7efd629239a14f2add95bdf617675cf59e3aeb2b67e21a07a52274c097eea"
    );
}

fn remembered(lines: &mut Vec<String>, at: u64, title: &str, ok: bool) {
    let mut entry = serde_json::Map::new();
    entry.insert("at".into(), at.into());
    entry.insert("title".into(), title.into());
    entry.insert("ok".into(), ok.into());
    let line = serde_json::to_string(&entry).unwrap();
    match record(lines, &line) {
        Some(kept) => *lines = kept.lines().map(str::to_owned).collect(),
        None => lines.push(line),
    }
}

fn recalled(lines: &[String], limit: usize) -> Vec<serde_json::Value> {
    read(read_lines(lines.to_vec()), limit)
        .iter()
        .filter_map(|line| serde_json::from_str(line).ok())
        .collect()
}

#[test]
fn a_copy_is_remembered_with_what_happened_to_it() {
    let mut lines = vec![];
    assert!(recalled(&lines, 10).is_empty());
    remembered(&mut lines, 1, "Dune", true);
    remembered(&mut lines, 2, "Piranesi", false);
    let entries = recalled(&lines, 10);
    assert_eq!(entries.len(), 2);
    assert_eq!(entries[1]["title"], "Piranesi");
    // A failure is kept: it is the half you go looking for.
    assert!(entries[1]["ok"] == false && entries[0]["ok"] == true);
    // Only the most recent are asked for.
    assert_eq!(recalled(&lines, 1)[0]["title"], "Piranesi");
    // A line nothing can parse loses itself, not the record around it.
    lines.push("this is not JSON".to_owned());
    remembered(&mut lines, 3, "Neuromancer", true);
    let entries = recalled(&lines, 10);
    assert_eq!(entries.len(), 3);
    assert_eq!(entries[2]["title"], "Neuromancer");
}

#[test]
fn an_escaped_reference_is_read_as_text() {
    assert_eq!(resolve("OEBPS/content.opf", "caf%C3%A9.xhtml"), "OEBPS/café.xhtml");
    assert_eq!(resolve("content.opf", "a%20b/../c.xhtml"), "c.xhtml");
    assert_eq!(resolve("x/content.opf", "100%.xhtml"), "x/100%.xhtml");
    // What is no UTF-8 stands for characters of its own.
    assert_eq!(resolve("content.opf", "%E9.xhtml"), "é.xhtml");
}

#[test]
fn a_field_left_out_keeps_what_the_book_says() {
    let package = "<metadata><meta name=\"calibre:series\" content=\"Dune\"/>\
        <meta name=\"calibre:series_index\" content=\"1\"/></metadata>";
    let place = Edit { series_index: Some("2".into()), ..Edit::default() };
    let after = edited_package(package, &place).unwrap();
    assert!(after.contains("<meta name=\"calibre:series\" content=\"Dune\"/>"), "{after}");
    assert!(after.contains("<meta name=\"calibre:series_index\" content=\"2\"/>"), "{after}");
    assert!(!after.contains("content=\"1\""), "{after}");
    let series = Edit { series: Some("Dune Chronicles".into()), ..Edit::default() };
    let after = edited_package(package, &series).unwrap();
    assert!(!after.contains("content=\"Dune\""), "{after}");
    assert!(after.contains("<meta name=\"calibre:series_index\" content=\"1\"/>"), "{after}");
    let bad = Edit { series_index: Some("second".into()), ..Edit::default() };
    assert!(edited_package(package, &bad).unwrap_err().contains("has to be a number"));
    let cleared = Edit {
        series: Some("".into()),
        series_index: Some("2".into()),
        ..Edit::default()
    };
    assert_eq!(edited_package(package, &cleared).unwrap(), "<metadata></metadata>");
}

#[test]
fn every_number_is_a_position() {
    let shown = |s: &str| read_position(s).map(|position| position.label());
    for (given, wanted) in [
        ("2", "2"),
        (" 2.50 ", "2.5"),
        ("+2", "2"),
        ("-1", "-1"),
        ("-0", "0"),
        (".5", "0.5"),
        ("5.", "5"),
        ("0012", "12"),
        ("1e1", "10"),
        ("12.5E1", "125"),
        ("12.5e-2", "0.125"),
        ("1e+2", "100"),
        ("0e99", "0"),
        ("inf", "inf"),
        ("-Infinity", "-inf"),
        ("NaN", "NaN"),
        ("1e30", "9223372036854775807"),
        ("-1e30", "-9223372036854775808"),
        ("1e38", "9223372036854775807"),
        ("1e39", "inf"),
        ("340282356779733661637539395458142568448", "inf"),
        ("340282356779733661637539395458142568447", "9223372036854775807"),
        ("-1e99999999999999999999999999999999999999999", "-inf"),
        ("-1e-99999999999999999999999999999999999999999", "0"),
    ] {
        assert_eq!(shown(given).as_deref(), Some(wanted), "{given}");
    }
    for none in ["", "second", ".", "-", "e5", "1e", "1.2.3", "+-1", "0x10"] {
        assert_eq!(shown(none), None, "{none}");
    }
    assert_eq!(read_position("1e39"), Some(Position::Infinite { negative: false }));
    assert_eq!(read_position("nan"), Some(Position::Undefined));
    let ranks: Vec<String> = ["-inf", "-10", "-2.5", "-2.25", "-2", "0", "2", "2.25", "2.5", "10", "inf"]
        .iter()
        .map(|s| read_position(s).unwrap().rank())
        .collect();
    assert!(ranks.windows(2).all(|pair| pair[0] < pair[1]), "{ranks:?}");
    // What the form takes reads back.
    let after = apply(
        &book("<dc:title>A</dc:title><dc:creator>B</dc:creator>"),
        &Edit {
            series: Some("Dune".into()),
            series_index: Some("-1".into()),
            ..Edit::default()
        },
    )
    .unwrap();
    assert_eq!(
        epub::metadata(&after).unwrap().unwrap().series_index,
        Some(Position::Number { negative: true, whole: 1, fraction: String::new() })
    );
}

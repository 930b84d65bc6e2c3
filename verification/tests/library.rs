use crossload::adobe;
use crossload::books::read;
use crossload::books::scan::{self, Entry, Find, Scan, Update, Visit, Walk};
use crossload::books::transfer::{self, size};
use crossload::books::{self, merge, Book, Place};
use crossload::cache::{self, Index};
use crossload::epub;
use crossload::format::Format;
use crossload::inventory::{FileEntry, Kind};
use crossload::names::file_name;
use crossload::pdf::layout::{self, Block, Item, Line};
use crossload::pdf::figure::{self, Shape, Space};
use crossload::pdf::{self, Concern, Page, Verdict};
use crossload::prepare::{self, component, Neighbour};
use crossload::tui::backend::{self, Batch};
use std::io::{Cursor, Read, Write};
use zip::write::SimpleFileOptions;
use zip::{ZipArchive, ZipWriter};

fn titled(title: &str, copies: Vec<books::Copy>) -> Book {
    Book {
        title: title.into(),
        author: "A".into(),
        series: None,
        series_index: None,
        copies,
    }
}

fn copy(place: Place, path: &str, sha: &str) -> books::Copy {
    let mut copy = books::copy(place, path, 10, false);
    copy.sha = sha.into();
    copy.variants = vec![(sha.into(), None)];
    copy
}

#[test]
fn copies_of_one_book_share_a_row_and_none_is_lost() {
    let mut library = vec![];
    merge(&mut library, titled("One", vec![copy(Place::Local, "/a", "x")]));
    merge(&mut library, titled("Two", vec![copy(Place::Kobo, "b", "y")]));
    let mut both = copy(Place::CrossPoint, "/c", "x");
    both.variants.push(("y".into(), None));
    merge(&mut library, titled("Three", vec![both]));
    assert_eq!(library.len(), 1);
    let spots: Vec<&str> = library[0].copies.iter().map(|c| c.path.as_str()).collect();
    assert_eq!(spots, ["/c", "/a", "b"]);
    merge(&mut library, titled("Else", vec![copy(Place::Local, "/z", "z")]));
    assert_eq!(library.len(), 2);
    books::sort(&mut library);
    assert_eq!(library[0].title, "Else");
    assert_eq!(books::books(1), "1 book");
    assert_eq!(books::books(4), "4 books");
}

#[test]
fn sizes_read_as_the_interface_shows_them() {
    assert_eq!(size(0), "0 B");
    assert_eq!(size(1023), "1023 B");
    assert_eq!(size(1024), "1.0 KiB");
    assert_eq!(size(1_048_524), "1023.9 KiB");
    assert_eq!(size(17_800_000), "17.0 MiB");
    assert_eq!(size(1024 + 256), "1.2 KiB");
    for bytes in [1280u64, 1331, 1536, 99_999_999, 5_368_709_120, u64::MAX, u64::MAX - 1025] {
        let mut value = bytes as f64;
        let mut unit = 0;
        while value >= 1024.0 && unit < 3 {
            value /= 1024.0;
            unit += 1;
        }
        let expected = format!("{value:.1} {}", ["B", "KiB", "MiB", "GiB"][unit]);
        assert_eq!(size(bytes), expected);
    }
}

#[test]
fn a_scan_keeps_what_was_found_when_a_place_fails() {
    let mut scan = Scan::new();
    let book = titled("Dune", vec![copy(Place::Local, "/a", "x")]);
    assert!(!scan.take(scan::book_update(Place::Local, book)));
    assert_eq!(scan.publish(false, false).unwrap().books.len(), 1);
    assert!(scan.publish(false, false).is_none());
    let broken = read::unreadable(
        Place::Kobo,
        Format::Epub,
        "id".into(),
        "Broken".into(),
        "no key",
    );
    scan.take(scan::book_update(Place::Kobo, broken));
    scan.take(Update::Acsm("/b.acsm".into()));
    scan.take(Update::Unreadable(Place::Local));
    assert!(scan.take(Update::Finished(Place::CrossPoint, Some("offline".into()))));
    assert!(scan.take(Update::Finished(Place::Local, None)));
    let snapshot = scan.finish();
    assert_eq!(snapshot.books.len(), 2);
    assert_eq!(snapshot.acsm, ["/b.acsm"]);
    assert_eq!(snapshot.status[0].1, "Ready (1 book, 1 unreadable)");
    assert_eq!(snapshot.status[1].1, "Checking (1 book)");
    assert_eq!(snapshot.status[2].1, "Unavailable: offline");
    assert!(snapshot.ready(Place::Local) && !snapshot.ready(Place::Kobo));
    assert_eq!(snapshot.books[0].author, "Unreadable: no key");
}

#[test]
fn a_walk_finds_books_and_waiting_requests() {
    let mut walk = Walk::new();
    walk.enter("/books");
    let root = walk.next().unwrap().unwrap();
    assert_eq!(walk.visit(&root, ".hidden", Kind::Folder), Ok(Visit::Skip));
    assert_eq!(walk.visit(&root, "link", Kind::Link), Ok(Visit::Skip));
    assert_eq!(walk.visit(&root, "Sub", Kind::Folder), Ok(Visit::Skip));
    assert_eq!(walk.visit(&root, "a.EPUB", Kind::File), Ok(Visit::File));
    assert_eq!(walk.file("/books/a.EPUB".into()), Find::Book);
    assert_eq!(walk.file("/books/a.EPUB".into()), Find::Nothing);
    assert_eq!(walk.file("/books/b.acsm".into()), Find::Acsm);
    assert_eq!(walk.file("/books/archive/b.acsm".into()), Find::Nothing);
    assert_eq!(walk.file("/books/.epub".into()), Find::Nothing);
    assert_eq!(walk.file("/books/notes.txt".into()), Find::Nothing);
    assert_eq!(walk.books, ["/books/a.EPUB"]);
    let sub = walk.next().unwrap().unwrap();
    assert_eq!((sub.path.as_str(), sub.depth), ("/books/Sub", 1));
    assert!(walk.next().unwrap().is_none());
    walk.visited = 20_000;
    assert!(walk.visit(&root, "x", Kind::File).is_err());
    assert_eq!(scan::claim(0), 1);
    assert_eq!(scan::claim(100), 300);
    assert_eq!(scan::claim(u64::MAX), 402_653_184);
    assert_eq!(scan::workers(16, 3), 3);
    assert_eq!(scan::workers(16, 0), 1);
    assert_eq!(scan::workers(4, 100), 4);
    assert_eq!(scan::roots("/a", "/b", true), ["/a", "/b"]);
    assert_eq!(scan::roots("/a", "/a", true), ["/a"]);
    assert_eq!(scan::scope(Place::Kobo, "/k", "N1"), "Kobo\u{1}/k\u{1}N1");
    assert_eq!(scan::preview("1".into(), "Dune").title, "[Preview] Dune");
    assert_eq!(scan::on_kobo(true, false), Entry::Hidden);
    assert_eq!(scan::on_kobo(true, true), Entry::Preview);
    assert_eq!(scan::on_kobo(false, false), Entry::Book);
    let file = |path: &str, directory: bool| FileEntry { path: path.into(), size: 1, directory };
    assert_eq!(scan::on_reader(&file("/a/b.EPUB", false)), Some(Format::Epub));
    assert_eq!(scan::on_reader(&file("/a/b.pdf", false)), None);
    assert_eq!(scan::on_reader(&file("/a/b.epub", true)), None);
    assert_eq!(scan::reader_title("/a/b.epub"), "b.epub");
}

fn packed(members: &[(&str, &[u8])]) -> Vec<u8> {
    let mut zip = ZipWriter::new(Cursor::new(Vec::new()));
    for (name, body) in members {
        zip.start_file::<_, ()>(*name, SimpleFileOptions::default()).unwrap();
        zip.write_all(body).unwrap();
    }
    zip.finish().unwrap().into_inner()
}

fn drawn(width: u32, height: u32) -> Vec<u8> {
    let mut out = Cursor::new(Vec::new());
    image::DynamicImage::new_rgb8(width, height)
        .write_to(&mut out, image::ImageFormat::Png)
        .unwrap();
    out.into_inner()
}

fn epub_with(picture: &[u8]) -> Vec<u8> {
    packed(&[
        ("mimetype", b"application/epub+zip"),
        (
            "META-INF/container.xml",
            b"<container><rootfiles><rootfile full-path=\"b.opf\"/></rootfiles></container>",
        ),
        (
            "b.opf",
            b"<package xmlns:dc=\"http://purl.org/dc/elements/1.1/\"><metadata>\
              <dc:title>Dune: One</dc:title><dc:creator>Frank Herbert.</dc:creator></metadata>\
              <manifest><item id=\"a\" href=\"a.xhtml\" media-type=\"application/xhtml+xml\"/>\
              </manifest><spine><itemref idref=\"a\"/></spine></package>",
        ),
        ("a.xhtml", b"<html xmlns=\"http://www.w3.org/1999/xhtml\"><body><p>A.</p></body></html>"),
        ("p.png", picture),
    ])
}

#[test]
fn a_device_copy_keeps_everything_but_its_pictures() {
    let large = drawn(1200, 900);
    let data = epub_with(&large);
    assert_eq!(epub::validate(&data), Ok(()));
    let (after, images) = prepare::optimize_images(&data).unwrap();
    assert_eq!(images, 1);
    let mut archive = ZipArchive::new(Cursor::new(&after[..])).unwrap();
    let names: Vec<String> = (0..archive.len())
        .map(|i| archive.by_index(i).unwrap().name().to_owned())
        .collect();
    assert_eq!(
        names,
        [
            "mimetype",
            "META-INF/container.xml",
            "b.opf",
            "a.xhtml",
            "p.png",
            "META-INF/xteink-device-profile.txt"
        ]
    );
    let mut picture = Vec::new();
    archive.by_name("p.png").unwrap().read_to_end(&mut picture).unwrap();
    let shown = image::load_from_memory(&picture).unwrap();
    assert_eq!((shown.width(), shown.height()), (480, 360));
    assert!(matches!(shown, image::DynamicImage::ImageLuma8(_)));
    // A device copy is left as it is, and so is a book without pictures.
    assert_eq!(prepare::optimize_images(&after).unwrap(), (after.clone(), 0));
    let plain = epub_with(b"no picture");
    assert_eq!(prepare::optimize_images(&plain).unwrap(), (plain.clone(), 0));
    let broken = epub_with(b"\x89PNG\r\n\x1a\nbroken");
    assert!(prepare::optimize_images(&broken)
        .unwrap_err()
        .starts_with("Cannot optimize image p.png; use --no-optimize"));
    let prepared = prepare::prepare("/x/dune.epub", data.clone(), true, true).unwrap();
    assert_eq!(prepared.name, "Dune_ One.epub");
    assert_eq!(prepared.author, "Frank Herbert");
    assert_eq!((prepared.original_bytes, prepared.images), (data.len(), 1));
    let flat = prepare::prepare("/x/dune.epub", data.clone(), false, false).unwrap();
    assert_eq!((flat.name.as_str(), flat.data == data), ("dune.epub", true));
    assert!(prepare::prepare("/x/..", data, false, false).is_err());
    assert!(prepare::prepare("/x/a", b"none".to_vec(), false, false).is_err());
    assert!(prepare::exceeds_screen(481, 1) && !prepare::exceeds_screen(480, 800));
    assert!(prepare::picture_of(b"\x89PNG\r\n\x1a\n..acTL").is_none());
    assert_eq!(prepare::picture_of(&[0xff, 0xd8, 0xff, 0]), Some(prepare::Picture::Jpeg));
}

#[test]
fn pictures_are_brought_to_the_screen_in_their_own_kind() {
    let member = |data: &[u8]| {
        let mut archive = ZipArchive::new(Cursor::new(data)).unwrap();
        let mut picture = Vec::new();
        archive.by_name("p.png").unwrap().read_to_end(&mut picture).unwrap();
        picture
    };
    let (after, images) = prepare::optimize_images(&epub_with(&drawn(100, 50))).unwrap();
    assert_eq!(images, 1);
    let small = image::load_from_memory(&member(&after)).unwrap();
    assert_eq!((small.width(), small.height()), (100, 50));
    let mut photograph = Cursor::new(Vec::new());
    image::DynamicImage::new_rgb8(600, 2000)
        .write_to(&mut photograph, image::ImageFormat::Jpeg)
        .unwrap();
    let photograph = photograph.into_inner();
    let (after, _) = prepare::optimize_images(&epub_with(&photograph)).unwrap();
    let kept = member(&after);
    assert_eq!(prepare::picture_of(&kept), Some(prepare::Picture::Jpeg));
    let tall = image::load_from_memory(&kept).unwrap();
    assert_eq!((tall.width(), tall.height()), (240, 800));
}

#[test]
fn a_book_is_recognized_as_its_device_copy_too() {
    let data = epub_with(&drawn(1200, 900));
    let mut index = Index::empty();
    let book = read::candidate(
        data.clone(),
        "/x/dune.epub",
        Place::Local,
        Format::Epub,
        "/x/dune.epub",
        true,
        true,
        &mut index,
        Some("key".into()),
        false,
        None,
        5,
    )
    .unwrap();
    assert_eq!(book.title, "Dune: One");
    assert_eq!(book.copies[0].variants.len(), 2);
    // What was found out is kept, and nothing that was kept is lost.
    let name = cache::variant_key(&book.copies[0].sha, true, true);
    assert_eq!(index.variant(&name, 6).unwrap().sha, book.copies[0].variants[1].0);
    let stored = index.source("key", 6).unwrap();
    assert_eq!((stored.title.as_str(), stored.variants.len()), ("Dune: One", 2));
    let other = epub_with(b"no picture");
    let more = read::candidate(
        other,
        "/x/other.epub",
        Place::Local,
        Format::Epub,
        "/x/other.epub",
        true,
        true,
        &mut index,
        None,
        false,
        None,
        7,
    );
    assert!(more.is_ok());
    assert_eq!(index.source("key", 7), Some(stored));
    assert!(index.variant(&name, 7).is_some());
    let (after, _) = prepare::optimize_images(&data).unwrap();
    let there = read::describe(&after, Place::CrossPoint, Format::Epub, "/d.epub", false, None).unwrap();
    assert!(there.optimized);
    let there = read::book(there, Place::CrossPoint, "/d.epub".into());
    assert!(books::matches(&book.copies[0], &there.copies[0]));
    let again = read::stored(&mut index, &Some("key".into()), Place::Local, "/y", 6).unwrap();
    assert_eq!(again.copies[0].path, "/y");
    assert!(read::stored(&mut index, &None, Place::Local, "/y", 6).is_none());
    let mut pdf = b"%PDF-1.7\nbody".to_vec();
    pdf.extend_from_slice(b"\ntrailer\n%%EOF\n");
    let paper = read::describe(&pdf, Place::Local, Format::Pdf, "/x/Some Paper.pdf", false, Some(Verdict::Good));
    let paper = paper.unwrap();
    assert!(!paper.optimized);
    assert_eq!((paper.title.as_str(), paper.verdict), ("Some Paper", Some(Verdict::Good)));
    let reader = Place::CrossPoint;
    let left = read::describe(&pdf, reader, Format::Pdf, "/x/a.pdf", false, None).unwrap();
    assert!(!left.optimized);
    assert!(read::describe(b"x", Place::Local, Format::Pdf, "/x", false, None).is_err());
}

#[test]
fn removing_and_copying_follow_the_rules() {
    let book = titled(
        "Dune",
        vec![copy(Place::Local, "/a.epub", "x"), copy(Place::Kobo, "id", "x")],
    );
    let none = vec![false, false];
    assert_eq!(transfer::remove(&book, Place::Local, "/a.epub", &none), Ok(0));
    assert_eq!(transfer::remove(&book, Place::Local, "/var/a.epub", &vec![true, false]), Ok(0));
    assert!(transfer::remove(&book, Place::Kobo, "/x", &none).unwrap_err().contains("no longer"));
    let alone = titled("Dune", vec![copy(Place::Local, "/a.epub", "x")]);
    assert!(transfer::remove(&alone, Place::Local, "/a.epub", &vec![false])
        .unwrap_err()
        .starts_with("This is the only copy of Dune"));
    let mut locked = book.clone();
    locked.copies[1].locked = true;
    assert!(transfer::remove(&locked, Place::Kobo, "id", &none).unwrap_err().contains("Kobo database"));
    let mut unread = book.clone();
    unread.copies[0].sha = String::new();
    assert!(transfer::remove(&unread, Place::Local, "/a.epub", &none).unwrap_err().contains("could not be read"));
    assert!(transfer::check_unchanged(b"a", "b").is_err());
    assert!(transfer::check_unchanged(
        b"",
        "e3b0c44298fc1c149afbf4c8996fb92427ae41e4649b934ca495991b7852b855"
    )
    .is_ok());
    assert_eq!(transfer::removed(Place::Local, "/a", 2048), "Deleted /a (2.0 KiB)");
    let (source, converting) = transfer::transfer(&book, Place::CrossPoint).unwrap();
    assert_eq!((source.path.as_str(), converting), ("/a.epub", false));
    assert_eq!(
        transfer::transfer(&book, Place::Local).unwrap_err(),
        "Preferred copy is already at this location"
    );
    let comic = titled("Comic", vec![copy(Place::Local, "/c.cbz", "c")]);
    assert!(transfer::transfer(&comic, Place::CrossPoint).unwrap_err().contains("a CBZ cannot"));
    let mut paper = titled("Paper", vec![copy(Place::Local, "/p.pdf", "p")]);
    assert!(transfer::transfer(&paper, Place::CrossPoint).unwrap().1);
    paper.copies[0].verdict = Some(Verdict::Impossible(Concern::NoText));
    assert!(transfer::transfer(&paper, Place::CrossPoint).unwrap_err().contains("would need OCR"));
    assert!(transfer::transfer(&titled("None", vec![]), Place::Local).is_err());
    assert_eq!(transfer::conversion_name("A: B"), "A_ B.epub");
    // Only for the reader are pictures made anew, and a PDF arrives there as a book.
    let planned = |path: &str, target: Place| {
        let plan = transfer::plan(&copy(Place::Local, path, "x"), target, true, false);
        (plan.format, plan.rewrite, plan.optimize, plan.by_author)
    };
    assert_eq!(planned("/a.epub", Place::CrossPoint), (Format::Epub, true, true, false));
    assert_eq!(planned("/a.pdf", Place::CrossPoint), (Format::Epub, true, true, false));
    assert_eq!(planned("/a.epub", Place::Kobo), (Format::Epub, true, false, true));
    assert_eq!(planned("/a.pdf", Place::Kobo), (Format::Pdf, false, false, false));
    assert_eq!(planned("/a.epub", Place::Local), (Format::Epub, true, false, false));
    assert!(transfer::plan(&book.copies[0], Place::CrossPoint, false, true).by_author);
    assert_eq!(
        transfer::copied("/o", &None, true),
        "Copied to /o (verified). Source is a device copy; any image optimization in it cannot be undone."
    );
}

#[test]
fn names_are_made_safe_and_stay_as_they_are() {
    assert_eq!(component(" ..A/B: C. ", "X"), "A_B_ C");
    assert_eq!(component("...", "Untitled"), "Untitled");
    assert_eq!(component("XTCache", "Untitled"), "Untitled");
    assert_eq!(component(&"é".repeat(100), "X"), "é".repeat(60));
    for value in [" a. ", "Über?", "x\u{7}y"] {
        let once = component(value, "Untitled");
        assert_eq!(component(&once, "Untitled"), once);
    }
    assert_eq!(file_name("  ", "0123456789abcdef", "epub"), "Book [0123456789ab].epub");
    assert_eq!(
        file_name(&"漢".repeat(80), "0123456789abcdef", "pdf"),
        format!("{} [0123456789ab].pdf", "漢".repeat(60))
    );
    let there = vec![Neighbour { name: "frank herbert".into(), directory: true }];
    assert_eq!(
        prepare::author_directory(&there, "Frank Herbert"),
        Ok(("frank herbert".to_owned(), false))
    );
    assert_eq!(prepare::author_directory(&vec![], "Amy"), Ok(("Amy".to_owned(), true)));
    assert!(prepare::author_directory(&vec![], "a/b").is_err());
}

#[test]
fn a_pdf_is_judged_by_its_pages() {
    let page = |bytes: usize, columns: bool, pictures: bool| Page { bytes, columns, pictures };
    let report = pdf::report(pdf::Structure { pages: 1, protected: false, outline: false }, &vec![page(0, false, false)]);
    assert_eq!(report.verdict, Verdict::Impossible(Concern::NothingFound));
    let report = pdf::report(pdf::Structure { pages: 1, protected: false, outline: false }, &vec![page(10, false, true)]);
    assert_eq!(report.verdict, Verdict::Impossible(Concern::NoText));
    let report = pdf::report(pdf::Structure { pages: 9, protected: true, outline: true }, &vec![]);
    assert_eq!(report.verdict, Verdict::Impossible(Concern::Protected));
    let good = vec![page(120, true, false); 20];
    assert_eq!(pdf::report(pdf::Structure { pages: 20, protected: false, outline: true }, &good).verdict, Verdict::Good);
    let mut mixed = good.clone();
    for at in 0..17 {
        mixed[at].columns = false;
    }
    assert_eq!(
        pdf::report(pdf::Structure { pages: 20, protected: false, outline: false }, &mixed).verdict,
        Verdict::Poor(vec![Concern::MixedColumns, Concern::NoChapters])
    );
    let scanned = vec![page(500, false, false), page(0, false, true)];
    assert_eq!(
        pdf::report(pdf::Structure { pages: 2, protected: false, outline: true }, &scanned).verdict,
        Verdict::Poor(vec![Concern::MostlyScanned])
    );
    assert_eq!((pdf::sample_step(0), pdf::sample_step(40), pdf::sample_step(41)), (1, 1, 2));
    assert_eq!(pdf::info(b"not a PDF at all").title, None);
    assert!(layout::justified(7, 10) && !layout::justified(6, 10) && !layout::justified(0, 0));
    assert!(layout::two_columns(1000, 400, 50, 400) && !layout::two_columns(1000, 400, 100, 400));
}

/// A PDF of some pages that show nothing, with an outline or without.
fn blank_pdf(count: usize, outline: bool) -> Vec<u8> {
    let mut document = lopdf::Document::with_version("1.5");
    let pages = document.new_object_id();
    let mut kids = vec![];
    for _ in 0..count {
        let mut page = lopdf::Dictionary::new();
        page.set("Type", lopdf::Object::Name(b"Page".to_vec()));
        page.set("Parent", pages);
        kids.push(lopdf::Object::Reference(document.add_object(page)));
    }
    let mut tree = lopdf::Dictionary::new();
    tree.set("Type", lopdf::Object::Name(b"Pages".to_vec()));
    tree.set("Kids", kids);
    tree.set("Count", count as i64);
    document.objects.insert(pages, lopdf::Object::Dictionary(tree));
    let mut catalog = lopdf::Dictionary::new();
    catalog.set("Type", lopdf::Object::Name(b"Catalog".to_vec()));
    catalog.set("Pages", pages);
    if outline {
        let mut outlines = lopdf::Dictionary::new();
        outlines.set("First", pages);
        let outlines = document.add_object(outlines);
        catalog.set("Outlines", outlines);
    }
    let catalog = document.add_object(catalog);
    document.trailer.set("Root", catalog);
    let mut data = Vec::new();
    document.save_to(&mut data).unwrap();
    data
}

#[test]
fn a_page_without_text_is_refused_rather_than_converted_badly() {
    let blank = blank_pdf(1, false);
    let nothing = vec![Page { bytes: 0, columns: false, pictures: false }];
    let report = pdf::inspect(&blank, &nothing).unwrap();
    assert_eq!(report.text_pages, 0);
    assert!(matches!(report.verdict, Verdict::Impossible(Concern::NothingFound)));
    assert!(pdf::inspect(b"not a PDF at all", &vec![]).is_err());
    // Refusing is the point: an EPUB of nothing helps nobody.
    assert!(pdf::convert(&blank, &nothing, &vec![]).is_err());
}

#[test]
fn the_structure_of_a_pdf_is_read() {
    let page = vec![Page { bytes: 500, columns: false, pictures: false }; 3];
    let report = pdf::inspect(&blank_pdf(3, true), &page).unwrap();
    assert_eq!((report.pages, report.outline), (3, true));
    assert_eq!(report.verdict, Verdict::Good);
    let report = pdf::inspect(&blank_pdf(2, false), &page).unwrap();
    assert_eq!((report.pages, report.outline), (2, false));
    assert_eq!(report.verdict, Verdict::Poor(vec![Concern::NoChapters]));
    let words = pdf::inspect(b"none", &page).unwrap_err();
    assert!(words.starts_with("This file could not be read as a PDF: "), "{words}");
    let long = "A paragraph that is long enough to be called readable prose.";
    let blocks = vec![Block::Paragraph(long.into())];
    let (book, verdict) = pdf::convert(&blank_pdf(3, true), &page, &blocks).unwrap();
    assert_eq!((epub::validate(&book), verdict), (Ok(()), Verdict::Good));
}

#[test]
fn a_pdf_says_what_it_is_called() {
    let mut document = lopdf::Document::with_version("1.5");
    let mut info = lopdf::Dictionary::new();
    info.set("Title", lopdf::Object::string_literal("  On Names "));
    info.set("Author", lopdf::Object::string_literal(" "));
    let id = document.add_object(info);
    document.trailer.set("Info", id);
    let mut catalog = lopdf::Dictionary::new();
    catalog.set("Type", lopdf::Object::Name(b"Catalog".to_vec()));
    let catalog = document.add_object(catalog);
    document.trailer.set("Root", catalog);
    let mut data = Vec::new();
    document.save_to(&mut data).unwrap();
    let info = pdf::info(&data);
    assert_eq!((info.title.as_deref(), info.author), (Some("On Names"), None));
    // In the library it is titled by its file all the same.
    let known = read::describe(&data, Place::Local, Format::Pdf, "/x/A Paper.pdf", false, None);
    let known = known.unwrap();
    assert_eq!((known.title.as_str(), known.author.as_str()), ("A Paper", ""));
}

fn line(text: &str) -> Line {
    Line {
        text: text.into(),
        large: false,
        indented: false,
        short: false,
        apart: false,
    }
}

#[test]
fn lines_become_prose_again() {
    let words = layout::vocabulary(&vec!["a well-known tree".into(), "a well-".into()]);
    assert!(words.contains(&"well-known".to_owned()) && !words.contains(&"well-".to_owned()));
    let mut heading = line("Chapter one");
    heading.large = true;
    let mut contents = line("Chapter one ........ 7");
    contents.large = true;
    let mut indented = line("A new start");
    indented.indented = true;
    let flow = vec![
        Item::Line(contents),
        Item::Line(heading),
        Item::Line(line("It was a well-")),
        Item::Line(line("known and unbro-")),
        Item::Line(line("ken rule")),
        Item::Line(indented),
        Item::Figure(3),
        Item::Line(line("after it")),
    ];
    let blocks = layout::blocks(&flow, true, &words);
    assert_eq!(
        blocks,
        [
            Block::Paragraph("Chapter one  …  7".into()),
            Block::Heading("Chapter one".into()),
            Block::Paragraph("It was a well-known and unbroken rule".into()),
            Block::Paragraph("A new start".into()),
            Block::Figure(3),
            Block::Paragraph("after it".into()),
        ]
    );
    assert_eq!(layout::word("“Tree,”"), "tree");
    let pages: Vec<Vec<String>> = (0..3)
        .map(|i| vec![format!("My Book {i}"), "text".into(), format!("{i}")])
        .collect();
    let repeated = layout::furniture(&pages);
    assert!(repeated.contains(&"my book".to_owned()) && repeated.contains(&String::new()));
    assert!(!repeated.contains(&"text".to_owned()));
    assert!(layout::furniture(&pages[..1].to_vec()).is_empty());
}

#[test]
fn prose_is_written_out_as_a_book() {
    let long = "This is a paragraph of the book & it is long <enough>.";
    let blocks = vec![
        Block::Paragraph("Before.".into()),
        Block::Heading(" One ".into()),
        Block::Heading("Subtitle".into()),
        Block::Paragraph(long.into()),
        Block::Heading("Two".into()),
        Block::Paragraph(" ".into()),
    ];
    let chapters = pdf::write::chapters(&blocks);
    let titles: Vec<&str> = chapters.iter().map(|c| c.title.as_str()).collect();
    assert_eq!(titles, ["Beginning", "One", "Two"]);
    assert!(chapters[1].body.ends_with("long &lt;enough&gt;.</p>\n"));
    let info = pdf::Info { title: None, author: Some("Ann".into()) };
    let data = pdf::make(&Verdict::Good, &info, &blocks).unwrap();
    assert_eq!(epub::validate(&data), Ok(()));
    let metadata = epub::metadata(&data).unwrap().unwrap();
    assert_eq!((metadata.title.as_deref(), metadata.author.as_str()), (Some("One"), "Ann"));
    assert_eq!(pdf::make(&Verdict::Good, &info, &blocks).unwrap(), data);
    assert!(pdf::make(&Verdict::Impossible(Concern::NoText), &info, &blocks)
        .unwrap_err()
        .starts_with("Cannot convert this PDF: "));
    assert!(pdf::make(&Verdict::Good, &info, &vec![Block::Paragraph("short".into())])
        .unwrap_err()
        .starts_with("Nothing readable"));
}

#[test]
fn pictures_are_read_or_refused_by_name() {
    let dct = vec![b"FlateDecode".to_vec(), b"DCTDecode".to_vec()];
    assert_eq!(
        figure::readable(&dct, Some(4), Some(4), None, None),
        Some(Shape::Jpeg { outer: true })
    );
    assert_eq!(figure::readable(&vec![b"JBIG2Decode".to_vec()], Some(4), Some(4), None, None), None);
    assert_eq!(figure::readable(&vec![], Some(0), Some(4), None, Some(Space::Gray)), None);
    assert_eq!(
        figure::readable(&vec![], Some(u32::MAX), Some(u32::MAX), None, Some(Space::Gray)),
        None
    );
    assert_eq!(
        figure::readable(&vec![], Some(2), Some(1), None, Some(Space::Rgb)),
        Some(Shape::Samples { width: 2, height: 1, bits: 8, space: Space::Rgb })
    );
    assert_eq!(figure::space(b"CalRGB"), Some(Space::Rgb));
    assert_eq!(figure::space(b"Separation"), None);
    assert_eq!(figure::profile_space(4), Some(Space::Cmyk));
    // Three one-bit pixels a row, each row padded to a byte.
    assert_eq!(
        figure::unpack(&[0b1010_0000, 0b0110_0000], 3, 2, 1, Space::Gray, false),
        Some(vec![vec![1, 0, 1], vec![0, 1, 1]])
    );
    assert_eq!(
        figure::unpack(&[0b0001_1011], 4, 1, 2, Space::Gray, true),
        Some(vec![vec![3, 2, 1, 0]])
    );
    assert_eq!(
        figure::unpack(&[0x12, 0x34], 1, 1, 16, Space::Gray, false),
        Some(vec![vec![0x1234]])
    );
    assert_eq!(figure::unpack(&[0x0f], 2, 1, 4, Space::Indexed, true), Some(vec![vec![0, 15]]));
    assert_eq!(figure::unpack(&[1, 2], 3, 1, 8, Space::Gray, false), None);
}

#[test]
fn a_set_that_was_copied_is_summed_up() {
    let mut batch = Batch::new(4);
    batch.note("Dune", Ok("Copied to /x (verified).".into()));
    for title in ["A", "B", "C"] {
        batch.note(title, Err("no room".into()));
    }
    assert_eq!(
        batch.perform(Place::Kobo).unwrap(),
        "Copied 1 of 4 books to Kobo. 3 failed: A: no room; B: no room; … Press r to refresh."
    );
    let mut one = Batch::new(1);
    one.note("Dune", Err("offline".into()));
    assert_eq!(one.perform(Place::Kobo).unwrap_err(), "Dune: offline");
    let mut stopped = Batch::new(2);
    stopped.stop();
    assert_eq!(
        stopped.perform(Place::Local).unwrap(),
        "Copied 0 of 2 books to Local. Stopped on request. Press r to refresh."
    );
    assert_eq!(backend::step(0, 3, "Dune"), "Copying 1 of 3: Dune…");
    assert_eq!(
        backend::detect_in(vec!["/a b".into(), "/a/b".into()]),
        ["/a/b", "/a b"]
    );
    assert_eq!(
        backend::detect_in(vec!["/m/b".into(), "/m/a".into(), "/m/b".into()]),
        ["/m/a", "/m/b"]
    );
    assert!(backend::check_address("").is_err());
}

#[test]
fn a_changed_file_is_asked_for_anew() {
    let looks = cache::file_fingerprint(12, 34, 56);
    assert_eq!(looks, "12\u{1}34.000000056");
    assert_ne!(looks, cache::file_fingerprint(12, 34, 57));
    let key = cache::source_key("Local", "/a.epub", &looks, true, false);
    assert_eq!(key, "Local\u{1}/a.epub\u{1}12\u{1}34.000000056\u{1}truefalse");
    assert_ne!(key, cache::source_key("Local", "/a.epub", &looks, false, true));
    assert_eq!(cache::variant_key("abc", false, true), "abc\u{1}falsetrue");
}

#[test]
fn the_most_recently_used_entries_stay() {
    let entry = |key: &str, seen: u64| cache::Aged {
        key: key.to_owned(),
        value: cache::Variant { sha: key.to_owned(), resources: None },
        seen,
    };
    let mut shelf = cache::Shelf {
        entries: vec![entry("a", 5), entry("b", 5), entry("c", 9), entry("d", 1)],
    };
    shelf.newest(2);
    let kept: Vec<&str> = shelf.entries.iter().map(|e| e.key.as_str()).collect();
    assert_eq!(kept, ["a", "c"]);
}

#[test]
fn what_came_of_a_book_is_left_alone() {
    let made = prepare::optimize_images(&epub_with(&drawn(1200, 900))).unwrap().0;
    assert_eq!(prepare::optimize_images(&made).unwrap(), (made.clone(), 0));
    let plain = epub_with(b"no picture");
    let same = prepare::optimize_images(&plain).unwrap().0;
    assert_eq!(prepare::optimize_images(&same).unwrap(), (plain, 0));
    for name in ["", "XTCache", " ... ", "System Volume Information"] {
        assert_eq!(component(name, "Untitled"), "Untitled");
        assert_eq!(component(name, "Unknown author"), "Unknown author");
    }
}

#[test]
fn font_metadata_is_put_back() {
    let book = epub_with(b"no picture");
    let fonts = b"<encryption/>".to_vec();
    let after = epub::restore_font_metadata(book.clone(), Some(fonts.clone())).unwrap();
    let mut archive = ZipArchive::new(Cursor::new(&after[..])).unwrap();
    let mut read = Vec::new();
    let mut member = archive.by_name("META-INF/encryption.xml").unwrap();
    member.read_to_end(&mut read).unwrap();
    assert_eq!(read, fonts);
    assert_eq!(epub::restore_font_metadata(book.clone(), None), Ok(book));
    assert!(epub::restore_font_metadata(b"none".to_vec(), Some(fonts)).is_err());
}

#[test]
fn an_activation_is_taken_from_its_export() {
    let salt = [7u8; 16];
    let whole = packed(&[
        ("export/device.xml", b"<device/>"),
        ("export/activation.xml", b"<activation/>"),
        ("export/devicesalt", &salt),
        ("device.xml.bak", b"<old/>"),
    ]);
    assert_eq!(
        adobe::import_activation(&whole).unwrap(),
        [b"<device/>".to_vec(), b"<activation/>".to_vec(), salt.to_vec()]
    );
    assert_eq!(adobe::activation_file(&whole, "device.xml").unwrap(), b"<device/>");
    assert_eq!(
        adobe::activation_file(&whole, "other").unwrap_err(),
        "Activation ZIP must contain exactly one other"
    );
    assert!(adobe::import_activation(b"no archive")
        .unwrap_err()
        .starts_with("Expected an activation export ZIP or directory"));
    let twice = packed(&[("device.xml", b"<a/>"), ("x/device.xml", b"<b/>")]);
    assert_eq!(
        adobe::import_activation(&twice).unwrap_err(),
        "Activation ZIP must contain exactly one device.xml"
    );
    let mut linked = ZipWriter::new(Cursor::new(Vec::new()));
    linked.add_symlink("device.xml", "/etc/x", SimpleFileOptions::default()).unwrap();
    let linked = linked.finish().unwrap().into_inner();
    assert_eq!(
        adobe::activation_file(&linked, "device.xml").unwrap_err(),
        "Activation ZIP contains a symlink"
    );
    let large = packed(&[("device.xml", &vec![b'x'; 8_388_609])]);
    assert_eq!(
        adobe::activation_file(&large, "device.xml").unwrap_err(),
        "File exceeds size limit (8388608 bytes)"
    );
    let broken = packed(&[("device.xml", b"<a")]);
    assert!(adobe::import_activation(&broken).unwrap_err().starts_with("Invalid device.xml"));
    let short = packed(&[
        ("device.xml", b"<a/>"),
        ("activation.xml", b"<a/>"),
        ("devicesalt", b"short"),
    ]);
    assert_eq!(
        adobe::import_activation(&short).unwrap_err(),
        "devicesalt must contain exactly 16 bytes"
    );
}

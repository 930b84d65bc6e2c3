use crossload::adobe;
use crossload::books::transfer;
use crossload::cli;
use crossload::config::{self, Defaults};
use crossload::copy::{self, Occupant, Plan};
use crossload::crosspoint::send::{Order, Reply, Sending};
use crossload::crosspoint::upload::{Upload, Wait};
use crossload::crosspoint::{check_contents, check_name, valid_component, verify, Entry, Reader, Status};
use crossload::format::Format;
use crossload::inventory::{self, Destination, FileEntry, Gathering, Identity, Inventory, Kind, Listing};
use crossload::kobo;
use crossload::opds::{self, feed, Delivery, Indirect, Kind as Offered, Offer};
use crossload::prepare;
use crossload::sync;
use crossload::sync::step::{step, Action, Event, State};

fn reader() -> Reader {
    Reader::new("192.168.1.7", "/Books/").unwrap()
}

#[test]
fn an_address_is_taken_as_the_reader_shows_it() {
    let r = reader();
    assert_eq!(r.folder(), "/Books");
    assert_eq!(r.base.whole, "http://192.168.1.7/");
    assert_eq!(r.websocket_port, 81);
    assert!(Reader::new("  ", "/").unwrap_err().starts_with("Supply the address"));
    assert!(Reader::new("https://reader", "/").unwrap_err().contains("http://"));
    assert!(Reader::new("reader/path", "/").unwrap_err().starts_with("Use only"));
    assert!(Reader::new("http://", "/").unwrap_err().starts_with("Invalid reader address: "));
    assert_eq!(
        Reader::new("reader", "Books").unwrap_err(),
        "Remote folder must start with /"
    );
    assert_eq!(
        Reader::new("reader", "/a/XTCache").unwrap_err(),
        "Unsupported remote filename or folder component: \"XTCache\""
    );
    assert_eq!(reader().with_websocket_port(8081).websocket_port, 8081);
}

#[test]
fn requests_carry_their_paths_encoded() {
    let r = reader();
    let asked = r.read_file("/Books/a b.epub", 12).unwrap();
    assert_eq!(asked.url, "http://192.168.1.7/download?path=%2FBooks%2Fa+b.epub");
    assert_eq!((asked.limit, asked.seconds), (12, 600));
    let renamed = r.rename("/Books/x", "y&z").unwrap();
    assert_eq!(renamed.form.as_deref(), Some("path=%2FBooks%2Fx&name=y%26z"));
    assert_eq!(renamed.seconds, 15);
    assert!(r.read_file("/big", 1 << 40).unwrap_err().starts_with("Reader file exceeds"));
    assert!(asked.fits(10, 2) && !asked.fits(10, 3) && asked.fits(99, 0));
    assert_eq!(
        asked.answer(false, None, 404, b"no\x07such\xff".to_vec()).unwrap_err(),
        "CrossPoint /download returned HTTP 404: no such\u{fffd}"
    );
    assert_eq!(
        asked.answer(false, Some("refused".into()), 0, vec![]).unwrap_err(),
        "CrossPoint request failed: /download: refused"
    );
    assert!(asked.answer(true, None, 200, vec![]).is_err());
    assert_eq!(asked.answer(false, None, 200, vec![7]).unwrap(), [7]);
    let v6 = Reader::new("[::1]:8080", "/").unwrap();
    assert_eq!(
        v6.socket().unwrap(),
        ("::1".to_owned(), "ws://[::1]:81/".to_owned())
    );
    assert_eq!(
        Reader::check_read("/x", 2, vec![1]).unwrap_err(),
        "Reader file changed or download is incomplete: /x"
    );
}

#[test]
fn only_a_crosspoint_reader_is_recognized() {
    let status = |version: &str, device: &str| Status {
        version: version.into(),
        device: device.into(),
    };
    assert!(status("1.6.0", "X4").check().is_ok());
    assert!(status("1.6.0", "unknown").check().is_err());
    assert!(status("", "X3").check().is_err());
}

fn entry(name: &str, size: u64, directory: bool) -> Entry {
    Entry {
        name: name.into(),
        size,
        directory,
    }
}

#[test]
fn a_missing_folder_is_reported_before_an_upload() {
    let r = Reader::new("reader", "/Books/New").unwrap();
    let steps = r.check_folder();
    assert_eq!(steps.len(), 2);
    assert_eq!((steps[1].parent.as_str(), steps[1].name.as_str()), ("/Books", "New"));
    assert!(r.check_step(&steps[0], &vec![entry("Books", 0, true)]).is_ok());
    let refused = r.check_step(&steps[1], &vec![entry("New", 4, false)]).unwrap_err();
    assert!(refused.starts_with("Remote folder /Books/New does not exist"));
    let (there, form) = reader()
        .for_author("frank herbert", &vec![entry("Frank Herbert", 0, true)])
        .unwrap();
    assert_eq!((there.folder(), form), ("/Books/Frank Herbert", None));
    let (made, form) = reader().for_author("Mick Herron", &vec![]).unwrap();
    assert_eq!(made.folder(), "/Books/Mick Herron");
    assert_eq!(form.as_deref(), Some("path=%2FBooks&name=Mick+Herron"));
    assert!(reader().for_author("Amy", &vec![entry("amy", 1, false)]).is_err());
    assert!(reader().for_author(".hidden", &vec![]).is_err());
}

fn sending(repair: bool) -> Sending {
    let (sending, order) = Sending::new(
        reader().repair_incomplete(repair),
        "Dune.epub".into(),
        b"whole book".to_vec(),
        "/local/Dune.epub".into(),
        "xteink-abc.uploading".into(),
    );
    assert!(matches!(order, Order::List(folder) if folder == "/Books"));
    sending
}

#[test]
fn a_book_is_published_only_after_it_was_read_back() {
    let mut s = sending(false);
    assert!(matches!(
        s.next(Reply::Entries(vec![])),
        Ok(Order::Upload { name }) if name == "xteink-abc.uploading"
    ));
    assert!(matches!(
        s.next(Reply::Uploaded),
        Ok(Order::Download { path, limit: 10 }) if path == "/Books/xteink-abc.uploading"
    ));
    assert!(matches!(
        s.next(Reply::Bytes(b"whole book".to_vec())),
        Ok(Order::Rename { path, name })
            if path == "/Books/xteink-abc.uploading" && name == "Dune.epub"
    ));
    match s.next(Reply::Bytes(b"Renamed successfully".to_vec())) {
        Ok(Order::Finish(sent)) => {
            assert_eq!(sent.path, "/Books/Dune.epub");
            assert_eq!((sent.bytes, sent.already_present, sent.backup), (10, false, None));
        }
        other => panic!("{other:?}"),
    }
    // A copy that came back changed is never given the book's name.
    let mut s = sending(false);
    s.next(Reply::Entries(vec![])).unwrap();
    s.next(Reply::Uploaded).unwrap();
    let refused = s.next(Reply::Bytes(b"whole b00k".to_vec())).unwrap_err();
    assert!(refused.starts_with("Upload verification failed"), "{refused}");
    assert!(refused.ends_with("Reader's copy differs from the local EPUB"));
    let mut s = sending(false);
    s.next(Reply::Entries(vec![])).unwrap();
    let refused = s.next(Reply::Failed("card full".into())).unwrap_err();
    assert!(refused.contains("Local EPUB retained at /local/Dune.epub."), "{refused}");
    assert!(refused.ends_with(": card full"));
}

#[test]
fn what_is_on_the_reader_is_left_alone_or_repaired() {
    let mut s = sending(false);
    assert!(matches!(
        s.next(Reply::Entries(vec![entry("dune.EPUB", 10, false)])),
        Ok(Order::Download { path, limit: 10 }) if path == "/Books/dune.EPUB"
    ));
    assert!(matches!(
        s.next(Reply::Bytes(b"whole book".to_vec())),
        Ok(Order::Finish(sent)) if sent.already_present && sent.path == "/Books/dune.EPUB"
    ));
    let refused = sending(false)
        .next(Reply::Entries(vec![entry("Dune.epub", 4, false)]))
        .unwrap_err();
    assert!(refused.starts_with("Reader has 4 of 10 bytes at /Books/Dune.epub."), "{refused}");
    let refused = sending(true)
        .next(Reply::Entries(vec![entry("Dune.epub", 0, true)]))
        .unwrap_err();
    assert_eq!(refused, "A directory already exists at /Books/Dune.epub");
    // A shorter beginning is put aside before the book goes out again.
    let mut s = sending(true);
    s.next(Reply::Entries(vec![entry("Dune.epub", 5, false)])).unwrap();
    match s.next(Reply::Bytes(b"whole".to_vec())) {
        Ok(Order::Rename { path, name }) => {
            assert_eq!(path, "/Books/Dune.epub");
            assert!(name.starts_with("xteink-") && name.ends_with(".incomplete-5"));
            assert_eq!(name.len(), "xteink-".len() + 24 + ".incomplete-5".len());
        }
        other => panic!("{other:?}"),
    }
    assert!(matches!(
        s.next(Reply::Bytes(b"Renamed successfully".to_vec())),
        Ok(Order::Upload { .. })
    ));
    let mut s = sending(true);
    s.next(Reply::Entries(vec![entry("Dune.epub", 5, false)])).unwrap();
    let refused = s.next(Reply::Bytes(b"other".to_vec())).unwrap_err();
    assert!(refused.contains("not an incomplete prefix"));
}

#[test]
fn names_and_contents_are_checked_before_sending() {
    assert!(check_name("Dune.epub").is_ok());
    assert!(check_name("paper.pdf").unwrap_err().contains("a PDF but its library"));
    assert!(check_name("notes.txt").unwrap_err().starts_with("Send requires"));
    assert!(valid_component("a<b").is_err() && valid_component("end.").is_err());
    assert!(check_contents(b"not a book").unwrap_err().starts_with("Book failed validation"));
    assert!(verify(b"a", b"a").is_ok() && verify(b"a", b"b").is_err());
}

#[test]
fn an_upload_sends_every_byte_in_turn() {
    let (mut upload, said) = Upload::start("x.uploading", 70_000, "/Books");
    assert_eq!(said, "START:x.uploading:70000:/Books");
    assert_eq!(
        upload.hear("BUSY").unwrap_err(),
        "Reader did not acknowledge upload start"
    );
    assert_eq!(upload.hear("ERROR:full").unwrap_err(), "CrossPoint ERROR:full");
    let mut parts = Vec::new();
    for answer in ["READY", "PROGRESS:65536:70000", "PROGRESS:70000:70000", "DONE"] {
        let (next, frames) = upload.hear(answer).unwrap();
        parts.extend(frames);
        upload = next;
    }
    assert_eq!(upload.wait, Wait::Finished);
    assert_eq!(parts.len(), 16 + 2);
    let mut end = 0;
    for part in &parts {
        assert!(part.from == end && part.to - part.from <= 4096);
        end = part.to;
    }
    assert_eq!(end, 70_000);
    let (empty, _) = Upload::start("e", 0, "/");
    let (empty, frames) = empty.hear("READY").unwrap();
    assert!(frames.is_empty());
    assert_eq!(empty.hear("DONE").unwrap().0.wait, Wait::Finished);
}

#[test]
fn a_listing_passes_over_what_is_hidden_and_keeps_to_its_bounds() {
    let card = Destination::Card("/mnt/card".into());
    let mut listing = card.files();
    let root = listing.next().unwrap().unwrap();
    assert_eq!((root.path.as_str(), root.depth), ("/", 0));
    for (name, kind) in [
        (".Trash", Kind::Folder),
        ("XTCache", Kind::Folder),
        ("b.epub", Kind::File),
        ("Author", Kind::Folder),
    ] {
        listing.enter(&root, name, kind, 7, name).unwrap();
    }
    assert_eq!(
        listing.enter(&root, "link", Kind::Link, 0, "/mnt/card/link").unwrap_err(),
        "Inventory refuses symlink: /mnt/card/link"
    );
    assert!(listing.enter(&root, "pipe", Kind::Other, 0, "").is_err());
    let author = listing.next().unwrap().unwrap();
    assert_eq!((author.path.as_str(), author.depth), ("/Author", 1));
    listing.enter(&author, "a.epub", Kind::File, 9, "").unwrap();
    assert!(listing.next().unwrap().is_none());
    let paths: Vec<String> = listing.finish().into_iter().map(|f| f.path).collect();
    assert_eq!(paths, ["/Author", "/Author/a.epub", "/b.epub"]);
    let mut deep = Listing::new(false, "/");
    deep.pending[0].depth = 33;
    assert_eq!(deep.next().unwrap_err(), "Reader directory tree is too deep");
    let mut wifi = Destination::Reader(reader()).files();
    let base = wifi.next().unwrap().unwrap();
    assert!(wifi.enter(&base, "a?b", Kind::File, 1, "").is_err());
}

fn file(path: &str, size: u64) -> FileEntry {
    FileEntry {
        path: path.into(),
        size,
        directory: false,
    }
}

fn identity(sha: &str, resources: Option<&str>) -> Identity {
    Identity {
        sha256: sha.into(),
        resources: resources.map(str::to_owned),
    }
}

#[test]
fn a_card_is_read_and_cleared_by_rules() {
    let card = Destination::Card("/mnt/card".into());
    assert_eq!(card.base(), "/");
    assert_eq!(Destination::on_card("/a//./b.epub").unwrap(), ["a", "b.epub"]);
    for bad in ["a", "/../x", "//a", "/./a", "/a/.."] {
        assert_eq!(Destination::on_card(bad).unwrap_err(), "Invalid card path", "{bad}");
    }
    assert!(card.read(&file("/a", 1 << 40)).is_err());
    assert!(card.remove(&file("/a", 1)).is_ok());
    let mut folder = file("/f", 0);
    folder.directory = true;
    assert_eq!(card.remove(&folder).unwrap_err(), "Refusing to remove a directory");
    let wifi = Destination::Reader(reader());
    assert!(wifi.remove(&file("/a", 1)).unwrap_err().starts_with("Deleting over Wi-Fi"));
    assert!(Destination::on_disk(&file("/a", 2), vec![1]).is_err());
    let mut gathering = Gathering::new();
    gathering.scan(file("/A.epub", 1), Some(identity("s", Some("r")))).unwrap();
    assert_eq!(
        gathering.scan(file("/a.EPUB", 1), None).unwrap_err(),
        "Case-colliding entries in destination: /a.EPUB"
    );
    gathering.scan(file("/b.txt", 1), None).unwrap();
    let inventory = gathering.finish();
    assert!(inventory.matching(&[&identity("other", Some("r"))]).is_some());
    assert!(inventory.matching(&[&identity("other", None)]).is_none());
    assert_eq!(inventory.at("/B.TXT").unwrap().file.path, "/b.txt");
    assert!(Inventory::wants(&file("/x.epub", 1)) && !Inventory::wants(&file("/x.txt", 1)));
}

fn candidate(sha: &str, name: &str) -> sync::Candidate {
    sync::Candidate {
        original: identity(sha, None),
        prepared: identity(&format!("{sha}-ready"), None),
        author: "Frank Herbert".into(),
        name: name.into(),
        bytes: 100,
    }
}

#[test]
fn a_sync_adds_and_never_overwrites() {
    let mut gathering = Gathering::new();
    gathering.scan(file("/Frank Herbert/Old.epub", 40), Some(identity("old", None))).unwrap();
    gathering.scan(file("/Frank Herbert/Part.epub", 40), Some(identity("part", None))).unwrap();
    let inventory = gathering.finish();
    let mut planned = vec![];
    let run = |planned: &Vec<sync::Planned>, book: &sync::Candidate, repair: bool| {
        sync::run(&inventory, planned, "/", book, true, repair)
    };
    assert_eq!(
        run(&planned, &candidate("old", "Old.epub"), false),
        Ok(sync::Decision::Present(0))
    );
    assert_eq!(
        run(&planned, &candidate("new", "New.epub"), false),
        Ok(sync::Decision::Transfer("/Frank Herbert/New.epub".into()))
    );
    planned.push(sync::Planned {
        original: identity("new", None),
        prepared: identity("new-ready", None),
        path: "/Frank Herbert/New.epub".into(),
    });
    assert_eq!(
        run(&planned, &candidate("new", "Else.epub"), false),
        Ok(sync::Decision::Duplicate("/Frank Herbert/New.epub".into()))
    );
    assert_eq!(
        run(&planned, &candidate("third", "new.EPUB"), false).unwrap_err(),
        "Different books map to the same destination: /Frank Herbert/new.EPUB"
    );
    let whole = candidate("whole", "Part.epub");
    assert!(run(&planned, &whole, false).unwrap_err().starts_with("A different file exists at"));
    assert_eq!(
        run(&planned, &whole, true),
        Ok(sync::Decision::Repair("/Frank Herbert/Part.epub".into(), 1))
    );
    assert!(sync::check_partial(b"who", b"whole", "/x").is_ok());
    assert!(sync::check_partial(b"xho", b"whole", "/x").is_err());
    assert!(sync::check_present(&identity("whole-ready", None), &whole).is_ok());
    assert!(sync::check_present(&identity("else", None), &whole).is_err());
    assert!(sync::check_import(&identity("else", None), &whole).is_err());
    assert_eq!(
        sync::detail(10, 8, &Some("/b".into()), &Some("/l".into())),
        "10 → 8 bytes; incomplete file preserved at /b; local: /l"
    );
    assert_eq!(sync::transferred(true, true), sync::Status::Repaired);
    assert_eq!(sync::transferred(false, false), sync::Status::Transfer);
    assert!(sync::card("/mnt".into(), false).is_err());
}

fn sync_options(apply: bool) -> sync::Options {
    sync::Options {
        output: "/out".into(),
        serial: None,
        apply,
        optimize: false,
        organized: true,
        repair: true,
        exclude: vec![],
    }
}

fn exported(data: &[u8], name: &str) -> Event {
    Event::Exported {
        original: data.to_vec(),
        file: "Dune [1].epub".into(),
        name: name.into(),
        data: data.to_vec(),
        author: "Frank Herbert".into(),
    }
}

#[test]
fn a_dry_run_plans_and_writes_nothing() {
    let card = Destination::Card("/card".into());
    let options = sync_options(false);
    let state = State::new(Inventory::empty(), &card);
    let (state, action) = step(state, Event::Begin, &options);
    assert_eq!(action, Action::Export);
    let (state, action) = step(state, exported(b"book", "Dune.epub"), &options);
    assert_eq!(action, Action::Look("/out/Dune [1].epub".into()));
    let (state, action) = step(state, Event::Local(None), &options);
    assert_eq!(
        action,
        Action::Finish(Ok((
            sync::Status::Transfer,
            "/Frank Herbert/Dune.epub".into(),
            "4 → 4 bytes".into()
        )))
    );
    assert_eq!(state.planned.len(), 1);
    // The same book again is a duplicate, and another import in the way is told.
    let (state, _) = step(state, Event::Begin, &options);
    let (state, action) = step(state, exported(b"book", "Else.epub"), &options);
    assert!(matches!(action, Action::Finish(Ok((sync::Status::Duplicate, _, _)))));
    let (state, _) = step(state, Event::Begin, &options);
    let (state, _) = step(state, exported(b"other", "Emma.epub"), &options);
    let found = Event::Local(Some((true, b"not it".to_vec())));
    let (state, action) = step(state, found, &options);
    assert_eq!(
        action,
        Action::Finish(Err("Existing local import differs: /out/Dune [1].epub".into()))
    );
    assert_eq!(state.planned.len(), 1);
    let (_, action) = step(state, Event::Copied("/card/x".into()), &options);
    assert_eq!(action, Action::Finish(Err("Unexpected answer during sync".into())));
}

#[test]
fn an_applied_sync_imports_then_transfers() {
    let card = Destination::Card("/card".into());
    let options = sync_options(true);
    let state = State::new(Inventory::empty(), &card);
    let (state, _) = step(state, Event::Begin, &options);
    let (state, action) = step(state, exported(b"book", "Dune.epub"), &options);
    assert_eq!(action, Action::Import);
    let made = Event::Imported("/out/Dune [1].epub".into(), b"book".to_vec());
    let (state, action) = step(state, made, &options);
    assert_eq!(action, Action::Copy(Some("Frank Herbert".into())));
    let there = Event::Copied("/card/Frank Herbert/Dune.epub".into());
    let (state, action) = step(state, there, &options);
    assert_eq!(
        action,
        Action::Finish(Ok((
            sync::Status::Sent,
            "/Frank Herbert/Dune.epub".into(),
            "4 → 4 bytes; local: /out/Dune [1].epub".into()
        )))
    );
    assert_eq!(state.planned.len(), 1);
    // A transfer that fails says where the import is, and plans nothing.
    let state = State::new(Inventory::empty(), &Destination::Reader(reader()));
    let (state, _) = step(state, Event::Begin, &options);
    let (state, _) = step(state, exported(b"book", "Dune.epub"), &options);
    let (state, action) = step(state, Event::Imported("/l".into(), b"book".to_vec()), &options);
    assert_eq!(action, Action::Send(Some("Frank Herbert".into())));
    let (state, action) = step(state, Event::Failed("no route".into()), &options);
    assert_eq!(
        action,
        Action::Finish(Err(
            "Local import retained at /l; rerun sync to recover: no route".into()
        ))
    );
    assert!(state.planned.is_empty());
    let (state, _) = step(state, Event::Begin, &options);
    let (state, _) = step(state, exported(b"book", "Dune.epub"), &options);
    let (_, action) = step(state, Event::Imported("/l".into(), b"else".to_vec()), &options);
    assert!(matches!(action, Action::Finish(Err(words)) if words.starts_with("Kobo book changed")));
}

#[test]
fn what_is_there_is_read_again_before_it_counts() {
    let data = b"book".to_vec();
    let mut gathering = Gathering::new();
    let known = inventory::identity(&data);
    gathering.scan(file("/Frank Herbert/Dune.epub", 4), Some(known)).unwrap();
    gathering.scan(file("/Frank Herbert/Part.epub", 2), Some(identity("part", None))).unwrap();
    let options = sync_options(true);
    let state = State::new(gathering.finish(), &Destination::Card("/card".into()));
    let (state, _) = step(state, Event::Begin, &options);
    let (state, action) = step(state, exported(&data, "Dune.epub"), &options);
    assert_eq!(action, Action::Read(0));
    let (state, action) = step(state, Event::Read(b"gone".to_vec()), &options);
    assert_eq!(
        action,
        Action::Finish(Err("Destination changed since inventory; rerun sync".into()))
    );
    let (state, _) = step(state, Event::Begin, &options);
    let (state, _) = step(state, exported(&data, "Dune.epub"), &options);
    let (state, action) = step(state, Event::Read(data), &options);
    assert!(matches!(action, Action::Finish(Ok((sync::Status::Present, _, _)))));
    // A shorter file is repaired only when it is the start of the book.
    let (state, _) = step(state, Event::Begin, &options);
    let (state, action) = step(state, exported(b"whole", "Part.epub"), &options);
    assert_eq!(action, Action::Read(1));
    let (state, action) = step(state, Event::Read(b"wh".to_vec()), &options);
    assert_eq!(action, Action::Import);
    let (state, _) = step(state, Event::Imported("/l".into(), b"whole".to_vec()), &options);
    let there = Event::Copied("/card/Frank Herbert/Part.epub".into());
    let (_, action) = step(state, there, &options);
    assert!(matches!(action, Action::Finish(Ok((sync::Status::Repaired, _, _)))));
}

#[test]
fn a_report_counts_its_failures() {
    let mut books = vec![kobo_book("1", "a"), kobo_book("2", "b"), kobo_book("3", "c")];
    books.push(kobo::sideloaded_plain("p.pdf".into(), "p.pdf", Format::Pdf));
    books[0].preview = true;
    let options = sync::Options {
        output: "/out".into(),
        serial: None,
        apply: true,
        optimize: true,
        organized: true,
        repair: false,
        exclude: vec!["3".into()],
    };
    let (begun, chosen) = sync::begin(&books, &options);
    assert_eq!((begun.previews_skipped, begun.excluded), (1, 1));
    assert_eq!((begun.apply, begun.books.len(), chosen), (true, 0, vec![1]));
    assert!(cli::lists(&books[1], false) && !cli::lists(&books[0], false));
    assert!(cli::lists(&books[0], true) && !cli::lists(&books[3], true));
    assert!(sync::check_local(true, b"same", b"same", "/b").is_ok());
    assert_eq!(
        sync::check_local(true, b"other", b"same", "/b").unwrap_err(),
        "Existing local import differs: /b"
    );
    assert!(sync::check_local(false, b"same", b"same", "/b").is_err());
    let row = |result| sync::row("id".into(), "Dune\u{7}".into(), result);
    let report = sync::Report {
        apply: false,
        previews_skipped: 2,
        excluded: 1,
        books: vec![
            row(Ok((sync::Status::Transfer, "/x".into(), "10 bytes".into()))),
            row(Err("no room".into())),
        ],
    };
    assert_eq!(report.failures(), 1);
    assert_eq!(cli::sync_row(&report.books[0]), "transfer\tDune \tid\t/x\t10 bytes");
    assert_eq!(
        cli::sync_summary(&report),
        "Dry run: 2 books; 2 previews skipped; 1 excluded; 1 failures. Use --apply to transfer missing books."
    );
    assert!(cli::sync_result(&report).unwrap_err().starts_with("Dry run has conflicts"));
    let mut options = sync::Options {
        output: "/out".into(),
        serial: None,
        apply: true,
        optimize: true,
        organized: true,
        repair: true,
        exclude: vec!["x".into()],
    };
    let card = Destination::Card("/c".into());
    assert!(sync::check_options(&options, &card).is_err());
    options.repair = false;
    assert!(sync::check_options(&options, &card).is_ok());
}

fn kobo_book(id: &str, title: &str) -> kobo::Book {
    kobo::Book {
        id: id.into(),
        title: title.into(),
        author: "A".into(),
        encrypted: false,
        preview: false,
        source: kobo::Source::KoboStore,
        format: crossload::format::Format::Epub,
        path: None,
        kobo_volume_id: None,
    }
}

#[test]
fn a_kobo_lists_books_and_names_what_it_exports() {
    let mut books = vec![kobo_book("2", "dune"), kobo_book("1", "Dune"), kobo_book("3", "Anna")];
    kobo::books(&mut books);
    let ids: Vec<&str> = books.iter().map(|b| b.id.as_str()).collect();
    assert_eq!(ids, ["3", "1", "2"]);
    assert_eq!(kobo::choose_book(&books, "2"), Ok(2));
    assert!(kobo::choose_book(&books, "9").unwrap_err().starts_with("Book ID is not downloaded"));
    books[0].preview = true;
    assert!(kobo::choose_book(&books, "3").unwrap_err().contains("preview"));
    assert_eq!(cli::totals(&books), "3 entries · 2 books · 1 previews");
    assert_eq!(cli::print_books(&books[0]), ["Anna", "A", "Kobo store", "Preview", "—", "3"]);
    for bad in ["", ".", "..", "a/b", "a\\b"] {
        assert!(kobo::book_path(bad).is_err(), "{bad}");
    }
    assert!(kobo::book_path("d9a1").is_ok());
    let comic = kobo::sideloaded_plain("Comics/Vol 1.cbz".into(), "Vol 1.cbz", Format::Cbz);
    assert_eq!((comic.title.as_str(), comic.author.as_str()), ("Vol 1", ""));
    assert!(comic.id.starts_with("file:") && comic.id.len() == 29);
    assert!(kobo::output_name(&comic).ends_with("].cbz"));
    assert!(kobo::check_plain(Format::Pdf, b"%PDF-1.7 %%EOF").is_ok());
    assert!(kobo::check_plain(Format::Pdf, b"%PDF-1.7").unwrap_err().contains("incomplete"));
    let name = kobo::output_name(&kobo_book("1", " What? "));
    assert!(name.starts_with("What_ [6b86b273ff34].epub"), "{name}");
    assert_eq!(
        kobo::device_serial("<a><deviceSerial> N123 </deviceSerial></a>").as_deref(),
        Ok("N123")
    );
    assert!(kobo::device_serial("<a/>").unwrap_err().starts_with("No serial"));
    assert!(kobo::device_serial("<a").unwrap_err().starts_with("Invalid Kobo device.xml"));
    assert_eq!(kobo::match_encrypted_store_copy("urn:uuid:7"), "7");
    assert!(kobo::is_passed_over("fonts", true) && !kobo::is_passed_over("fonts", false));
    assert!(kobo::output_directory("/a/../b", "/a", "/k").is_err());
    assert!(kobo::output_directory("/k/b", "/k", "/k").is_err());
    assert!(kobo::output_directory("/kobo", "/kobo", "/k").is_ok());
    assert!(kobo::open("/k/.kobo/a.sqlite", "/k/.kobo/kepub", "/k").is_ok());
    assert!(kobo::open("/other/a.sqlite", "/k/.kobo/kepub", "/k").unwrap_err().contains("database"));
    assert!(kobo::open("/k/a", "/kepub", "/k").unwrap_err().contains("book directory"));
    let below = |path: &str, source| kobo::source_path(path, source, "/k/.kobo/kepub", "/k");
    assert!(below("/k/.kobo/kepub/1", kobo::Source::KoboStore).is_ok());
    assert!(below("/k/1", kobo::Source::KoboStore).unwrap_err().contains("Kobo book directory"));
    assert!(below("/k/1", kobo::Source::Sideloaded).is_ok());
    assert!(below("/1", kobo::Source::Sideloaded).unwrap_err().contains("outside the device"));
    assert!(transfer::check_sideloaded(kobo::Source::Sideloaded).is_ok());
    assert!(transfer::check_sideloaded(kobo::Source::KoboStore).is_err());
    assert!(kobo::user_keys("", &vec!["u".into()]).is_err());
    assert!(kobo::user_keys("N", &vec![]).is_err());
    let keys = kobo::user_keys("N1", &vec!["u".into()]).unwrap();
    assert!(!keys.is_empty() && keys != kobo::user_keys("N2", &vec!["u".into()]).unwrap());
    assert!(kobo::query(true).contains("Accessibility") && !kobo::query(false).contains("Access"));
    assert!(kobo::check_encrypted_members(b"no archive", &vec![]).is_err());
    assert!(kobo::check_download(b"no archive").is_err() && kobo::import(vec![], false, None).is_err());
}

#[test]
fn a_request_is_fulfilled_once() {
    assert_eq!(adobe::import(false, false, false, "/c"), Ok(adobe::Step::Fulfill));
    assert!(adobe::import(false, true, false, "/c").unwrap_err().ends_with("Recovery files: /c"));
    assert_eq!(adobe::import(true, true, false, "/c"), Ok(adobe::Step::Download));
    assert_eq!(adobe::import(true, true, true, "/c"), Ok(adobe::Step::Decrypt));
    assert!(adobe::check_request(b"<fulfillmentToken/>").is_ok());
    assert!(adobe::check_request(b"<other/>").unwrap_err().contains("not an ACSM"));
    assert!(adobe::check_request(b"<").unwrap_err().starts_with("Invalid ACSM XML"));
    assert_eq!(
        adobe::check_request(
            b"<fulfillmentToken><format>application/pdf</format></fulfillmentToken>"
        )
        .unwrap_err(),
        "PDF ACSM files are not supported yet"
    );
    assert_eq!(adobe::archive("b.acsm", 0), "b.acsm");
    assert_eq!(adobe::archive("b.acsm", 3), "b-3.acsm");
    assert_eq!(adobe::archive("bare", 1), "bare-1");
    assert!(adobe::check_activation("devicesalt", &[0; 16]).is_ok());
    assert!(adobe::check_activation("devicesalt", &[0; 15]).is_err());
    assert!(adobe::check_activation("device.xml", b"<a").unwrap_err().starts_with("Invalid device.xml"));
    assert!(adobe::check_installed("devicesalt", 16).is_ok());
    assert_eq!(adobe::check_installed("devicesalt", 9).unwrap_err(), "Invalid devicesalt size");
    assert!(adobe::check_installed("device.xml", 9).is_ok());
    assert!(adobe::check_output("/state/books", "/state").is_err());
    assert!(adobe::check_output("/statement", "/state").is_ok());
    assert!(adobe::is_link(Some(0o120777)) && !adobe::is_link(Some(0o100644)));
    assert!(!adobe::is_link(None));
    assert_eq!(
        adobe::default_state_dir(&None, &Some("/home/a".into())).as_deref(),
        Ok("/home/a/.local/share/xteink")
    );
    assert!(adobe::default_state_dir(&None, &None).is_err());
    assert!(adobe::bounded(9, 8).unwrap_err().contains("(8 bytes)"));
    assert!(adobe::publish(b"x", b"request").is_err());
    assert_eq!(adobe::output_name("..", "0123456789abcdef"), "Book [0123456789ab].epub");
}

#[test]
fn a_copy_takes_a_free_name_only() {
    let paper = b"%PDF-1.7 %%EOF";
    assert!(copy::check_as(Format::Pdf, "paper.PDF", paper).is_ok());
    assert_eq!(
        copy::check_as(Format::Pdf, "paper.epub", paper).unwrap_err(),
        "Choose an ordinary .pdf filename suitable for the SD card"
    );
    assert!(copy::check_as(Format::Pdf, "paper.pdf", b"%PDF-")
        .unwrap_err()
        .starts_with("Book failed PDF validation; nothing was copied: PDF is incomplete"));
    assert!(copy::check_as(Format::Epub, "paper.epub", paper)
        .unwrap_err()
        .starts_with("Book failed EPUB validation"));
    let carried = prepare::carry("/x/paper.pdf", paper.to_vec(), Format::Pdf).unwrap();
    assert_eq!((carried.name.as_str(), carried.data.as_slice()), ("paper.pdf", &paper[..]));
    assert_eq!((carried.author.as_str(), carried.images), ("", 0));
    assert!(prepare::carry("/", paper.to_vec(), Format::Pdf).is_err());
    assert!(prepare::carry("/x/paper.cbz", paper.to_vec(), Format::Cbz).is_err());
    let held = vec![
        Occupant { name: "A.epub".into(), file: true },
        Occupant { name: "B.epub".into(), file: false },
    ];
    assert_eq!(copy::copy("a.EPUB", &held), Ok(Plan::Compare(0)));
    assert!(copy::copy("b.epub", &held).unwrap_err().contains("already occupied"));
    assert_eq!(copy::copy("c.epub", &held), Ok(Plan::Write));
    assert!(copy::check("c.txt", b"").unwrap_err().starts_with("Choose an ordinary"));
    assert!(copy::check("c.epub", b"").unwrap_err().starts_with("Book failed EPUB validation"));
    assert!(copy::compare("/x", b"a", b"a").unwrap().already_present);
    assert!(copy::compare("/x", b"a", b"b").is_err());
    assert!(copy::check_written("/x", b"a", b"b").is_err());
    assert!(!copy::check_written("/x", b"a", b"a").unwrap().already_present);
    assert_eq!(
        copy::check_room(3, 4).unwrap_err(),
        "Not enough free space on destination: need 4 bytes, available 3"
    );
}

fn offer(kind: Offered, media: &str, indirect: Vec<Indirect>) -> Offer {
    Offer {
        kind,
        href: "http://x/1".into(),
        media_type: media.into(),
        title: None,
        length: None,
        indirect,
        availability: None,
    }
}

fn leads(media: &str, inner: Vec<Indirect>) -> Indirect {
    Indirect {
        media_type: media.into(),
        inner,
    }
}

#[test]
fn an_offer_is_followed_to_its_end() {
    assert_eq!(
        offer(Offered::OpenAccess, "application/epub+zip;x=1", vec![]).delivery(),
        Delivery::Book(Format::Epub)
    );
    let chain = || {
        vec![leads(
            "application/atom+xml;type=entry",
            vec![
                leads(
                    "application/vnd.adobe.adept+xml",
                    vec![leads("application/pdf", vec![])],
                ),
                leads("application/vnd.readium.lcp.license.v1.0+json", vec![]),
            ],
        )]
    };
    let borrowed = offer(Offered::Borrow, "application/atom+xml", chain());
    assert_eq!(borrowed.delivery(), Delivery::Acsm(Format::Pdf));
    assert_eq!(borrowed.delivery().label(), "PDF via Adobe DRM");
    assert!(borrowed.borrowable());
    let refused = offer(
        Offered::Borrow,
        "application/atom+xml",
        vec![leads("application/audiobook+json", vec![])],
    );
    assert_eq!(refused.delivery(), Delivery::Unsupported("an audiobook"));
    assert_eq!(Offered::of("http://opds-spec.org/acquisition/borrow"), Some(Offered::Borrow));
    assert_eq!(Offered::of("http://opds-spec.org/acquisition"), Some(Offered::Direct));
    assert_eq!(Offered::of("alternate"), None);
    let entry = opds::Entry {
        id: "1".into(),
        title: "T".into(),
        authors: vec!["A".into(), "B".into()],
        summary: None,
        publisher: None,
        language: None,
        offers: vec![refused, borrowed, offer(Offered::Buy, "application/epub+zip", vec![])],
        subsection: None,
    };
    assert_eq!(entry.author(), "A and others");
    assert_eq!(entry.best().unwrap().kind, Offered::Buy);
    assert!(entry.deliverable());
}

#[test]
fn a_feed_is_read_as_it_states_itself() {
    let text = "<feed xmlns=\"http://www.w3.org/2005/Atom\"><title> Shelf </title>\
        <link rel=\"next\" href=\"/page/2\"/>\
        <entry><id>1</id><title>Dune</title><author><name>Frank Herbert</name></author>\
        <link rel=\"http://opds-spec.org/acquisition/open-access\" href=\"dune.epub\" \
        type=\"application/epub+zip\" length=\"+12\"/></entry>\
        <entry><id>2</id><link rel=\"subsection\" href=\"more\" \
        type=\"application/atom+xml;profile=opds-catalog\"/></entry></feed>";
    let read = feed::parse(text, "https://example.org/root/").unwrap();
    assert_eq!(read.title, "Shelf");
    assert_eq!(read.next.as_deref(), Some("https://example.org/page/2"));
    assert_eq!((read.books().len(), read.navigation().len()), (1, 1));
    let dune = &read.entries[0];
    assert_eq!(dune.author(), "Frank Herbert");
    assert_eq!(dune.offers[0].href, "https://example.org/root/dune.epub");
    assert_eq!(dune.offers[0].length, Some(12));
    assert_eq!(read.entries[1].title, "Untitled");
    assert_eq!(
        read.entries[1].subsection.as_deref(),
        Some("https://example.org/root/more")
    );
    assert!(feed::parse(" \u{feff}<!DOCTYPE html><html/>", "https://e/").unwrap_err().contains("is a web page"));
    assert!(feed::parse("<feed/>", "https://e/").unwrap_err().contains("the document is <feed>"));
    assert!(feed::parse("<feed", "https://e/").unwrap_err().starts_with("Catalogue did not return a parsable"));
    assert!(feed::received(&[0xff], "https://e/").unwrap_err().starts_with("Catalogue did not return text"));
    assert_eq!(feed::fetch("https://example.org").as_deref(), Ok("https://example.org/"));
    assert!(feed::fetch("ftp://example.org").unwrap_err().contains("http or https"));
    assert!(feed::fetch("nowhere").unwrap_err().starts_with("Invalid catalogue address nowhere"));
    let description = b"<OpenSearchDescription xmlns=\"http://a9.com/-/spec/opensearch/1.1/\">\
        <Url type=\"text/html\" template=\"/web?q={searchTerms}\"/>\
        <Url type=\"application/atom+xml;profile=opds-catalog\" template=\"/s?q={searchTerms}\"/>\
        </OpenSearchDescription>";
    assert_eq!(
        feed::search("https://example.org/d.xml", description, "a&b c").as_deref(),
        Ok("https://example.org/s?q=a%26b+c")
    );
    assert!(feed::search("https://e/", b"<a/>", "q").unwrap_err().contains("no OPDS search template"));
    assert_eq!(
        feed::answer("https://e/", 8 << 20, true, None, 200, vec![]).unwrap_err(),
        "Catalogue response is larger than the 8 MiB this accepts"
    );
    assert!(feed::answer("u", 1, false, None, 403, vec![]).unwrap_err().ends_with("wants a library card"));
    assert!(feed::answer("u", 1, false, None, 404, vec![]).unwrap_err().ends_with("may be wrong"));
    let mut pdf = b"%PDF-1.7\nbody".to_vec();
    pdf.extend_from_slice(b"\ntrailer\n%%EOF\n");
    let name = feed::publish(&pdf, crossload::format::Format::Pdf).unwrap();
    assert!(name.starts_with("Book [") && name.ends_with("].pdf"), "{name}");
    assert!(feed::publish(b"x", crossload::format::Format::Epub)
        .unwrap_err()
        .starts_with("The catalogue did not deliver a readable EPUB"));
}

#[test]
fn the_command_line_fills_in_what_was_saved() {
    assert!(config::load(65536).is_ok());
    assert_eq!(config::load(65537).unwrap_err(), "Configuration exceeds 64 KiB");
    let mut defaults = Defaults {
        reader: Some("reader".into()),
        folder: Some("/Books".into()),
        ..Defaults::default()
    };
    let transfer = |send: Option<&str>, copy: Option<&str>| cli::Transfer {
        send_to: send.map(str::to_owned),
        copy_to: copy.map(str::to_owned),
        folder: None,
    };
    let resolved = transfer(Some(""), None).resolve(&defaults).unwrap();
    assert_eq!(resolved.send_to.as_deref(), Some("reader"));
    assert_eq!(resolved.reader(true).unwrap().unwrap().folder(), "/Books");
    assert!(transfer(None, Some(cli::SAVED_COPY)).resolve(&defaults).is_err());
    defaults.copy_to = Some("/mnt".into());
    let resolved = transfer(None, Some(cli::SAVED_COPY)).resolve(&defaults).unwrap();
    assert_eq!(resolved.copy_to.as_deref(), Some("/mnt"));
    assert!(resolved.reader(false).is_err());
    assert!(resolved.reader(true).unwrap().is_none());
    assert_eq!(cli::printable("a\nb"), "a b");
    assert_eq!(cli::send("/x", 9, true), "Already on reader: /x (9 bytes; SHA-256 verified)");
    assert_eq!(cli::copy("/x", 9, false), "Copied /x (9 bytes; verified)");
    assert_eq!(
        cli::prepared_note(10, 8, 1),
        "Device copy: 10 → 8 bytes; 1 images optimized for X4 (480×800)."
    );
}

use std::io::Write;

use zaprust::archive::{find_entry, unpack, wanted, Header, Wording};
use zaprust::probe::{autoselect_targets, check_detail, load_targets, load_targets_file, parse_targets, Probe, Reply};
use zaprust::updater::{
    check_latest, check_latest_nfqws, content_length, copy_over, copy_with_retry, extract_nfqws, fetch_default_list,
    find_core_root, find_zip_url, is_windows_artifact, json_str, local_nfqws_version, local_version,
    nfqws_platform_dir, CopyAction, COPY_TRIES,
};

fn labels(probes: &[Probe]) -> Vec<String> {
    probes.iter().map(|p| p.label()).collect()
}

/// An archive with these files, packed.
fn archive(files: &[(&str, &[u8])]) -> Vec<u8> {
    let mut w = zip::ZipWriter::new(std::io::Cursor::new(Vec::new()));
    for (name, data) in files {
        let options = zip::write::SimpleFileOptions::default().compression_method(zip::CompressionMethod::Deflated);
        if name.ends_with('/') {
            w.add_directory(*name, options).unwrap();
        } else {
            w.start_file(*name, options).unwrap();
            w.write_all(data).unwrap();
        }
    }
    w.finish().unwrap().into_inner()
}

const BODY: &str = r#"{"tag_name":"1.8.2","assets":[{"browser_download_url":"https://x/notes.txt"},{"browser_download_url":"https://x/zapret-discord-youtube-1.8.2.zip"}]}"#;

#[test]
fn main_probe_parses_targets_format() {
    match Probe::parse_line(r#"YouTubeWeb = "https://www.youtube.com""#) {
        Some(Probe::Https(u)) => assert_eq!(u, "https://www.youtube.com"),
        other => panic!("ожидали Https, got {:?}", other.map(|p| p.label())),
    }
    match Probe::parse_line(r#"CloudflareDNS1111 = "PING:1.1.1.1""#) {
        Some(Probe::Tcp(a)) => assert_eq!(a, "1.1.1.1:443"),
        other => panic!("ожидали Tcp, got {:?}", other.map(|p| p.label())),
    }
    assert!(Probe::parse_line("### Discord").is_none(), "комментарий пропускаем");
    assert!(Probe::parse_line("   ").is_none(), "пустую строку пропускаем");
    match Probe::parse_value("example.com") {
        Some(Probe::Https(u)) => assert_eq!(u, "https://example.com"),
        other => panic!("ожидали Https, got {:?}", other.map(|p| p.label())),
    }
}

#[test]
fn probe_parses_targets_format() {
    match Probe::parse_line(r#"YouTubeWeb = "https://www.youtube.com""#) {
        Some(Probe::Https(u)) => assert_eq!(u, "https://www.youtube.com"),
        other => panic!("ожидали Https, got {:?}", other.map(|p| p.label())),
    }
    match Probe::parse_line(r#"CloudflareDNS1111 = "PING:1.1.1.1""#) {
        Some(Probe::Tcp(a)) => assert_eq!(a, "1.1.1.1:443"),
        other => panic!("ожидали Tcp, got {:?}", other.map(|p| p.label())),
    }
    assert!(Probe::parse_line("### Discord").is_none(), "комментарий пропускаем");
    assert!(Probe::parse_line("   ").is_none(), "пустую строку пропускаем");
    match Probe::parse_value("example.com") {
        Some(Probe::Https(u)) => assert_eq!(u, "https://example.com"),
        other => panic!("ожидали Https, got {:?}", other.map(|p| p.label())),
    }
}

#[test]
fn a_target_is_shown_without_its_scheme() {
    assert_eq!(Probe::Https("https://a.b//".to_owned()).label(), "a.b");
    assert_eq!(Probe::Https("http://a.b/c".to_owned()).label(), "a.b/c");
    assert_eq!(Probe::Tcp("1.1.1.1:443".to_owned()).label(), "1.1.1.1");
    assert!(Probe::parse_value("PING: ").is_none());
    assert!(Probe::parse_value("\"\"").is_none());
    assert!(Probe::parse_line("no equals sign").is_none());
    let copy = Probe::Tcp("x:443".to_owned()).clone();
    assert_eq!(copy.label(), "x");
}

#[test]
fn a_file_of_targets_is_read() {
    let text = "# c\nA = \"a.com\"\n\nB = \"PING:2.2.2.2\"\n";
    assert_eq!(labels(&parse_targets(text)), vec!["a.com", "2.2.2.2"]);
    assert_eq!(labels(&load_targets_file(Some(text))), vec!["a.com", "2.2.2.2"]);
    assert_eq!(labels(&load_targets_file(Some("# c"))), vec!["www.youtube.com", "discord.com"]);
    assert_eq!(labels(&load_targets_file(None)), labels(&autoselect_targets()));
    assert_eq!(labels(&load_targets(None)), vec!["www.youtube.com", "discord.com", "www.google.com"]);
    assert_eq!(labels(&load_targets(Some(text))), vec!["a.com", "2.2.2.2"]);
}

#[test]
fn every_answer_counts() {
    assert_eq!(check_detail(&Reply::Fine), (true, "ok".to_owned()));
    assert_eq!(check_detail(&Reply::Status(403)), (true, "http 403".to_owned()));
    let silent = |r: Reply| check_detail(&r);
    assert_eq!(
        silent(Reply::Transport("Io".to_owned(), "a\nb".to_owned())),
        (false, "Io: a b".to_owned())
    );
    assert_eq!(silent(Reply::Unconnected("timed out".to_owned())), (false, "tcp: timed out".to_owned()));
    assert_eq!(silent(Reply::Homeless), (false, "нет адреса".to_owned()));
    assert_eq!(silent(Reply::Unresolved("no name".to_owned())), (false, "dns: no name".to_owned()));
}

#[test]
fn parses_tag_and_zip_url() {
    assert_eq!(json_str(BODY, "tag_name").as_deref(), Some("1.8.2"));
    assert_eq!(
        find_zip_url(BODY).as_deref(),
        Some("https://x/zapret-discord-youtube-1.8.2.zip")
    );
}

#[test]
fn a_release_needs_a_tag_and_an_archive() {
    let r = check_latest(BODY).unwrap();
    assert_eq!(r.tag, "1.8.2");
    assert_eq!(r.zip_url, "https://x/zapret-discord-youtube-1.8.2.zip");
    assert!(matches!(check_latest("{}"), Err(e) if e == "в ответе нет tag_name"));
    assert!(matches!(check_latest(r#"{"tag_name":"1"}"#), Err(e) if e == "в релизе нет .zip-ассета"));
    assert!(matches!(check_latest_nfqws("{}"), Err(e) if e == "в ответе bol-van нет tag_name"));
    assert!(matches!(check_latest_nfqws(r#"{"tag_name":"1"}"#), Err(e) if e == "в релизе bol-van нет .zip-ассета"));
    assert_eq!(check_latest_nfqws(BODY).unwrap().tag, "1.8.2");
    assert_eq!(json_str(r#""a":"b"#, "a"), None);
    assert_eq!(find_zip_url(r#""browser_download_url":"https://x/a.exe""#), None);
}

#[test]
fn sizes_and_versions_are_read() {
    assert_eq!(content_length(Some("1234")), Some(1234));
    assert_eq!(content_length(Some("x")), None);
    assert_eq!(content_length(None), None);
    assert_eq!(local_version(Some(" 1.8.2\n")).as_deref(), Some("1.8.2"));
    assert_eq!(local_version(Some("\n")), None);
    assert_eq!(local_nfqws_version(Some("v70\n")).as_deref(), Some("v70"));
    assert_eq!(local_nfqws_version(None), None);
}

#[test]
fn the_engine_is_taken_out_of_a_release() {
    assert_eq!(nfqws_platform_dir("x86_64"), "linux-x86_64");
    assert_eq!(nfqws_platform_dir("aarch64"), "linux-arm64");
    assert_eq!(nfqws_platform_dir("arm"), "linux-arm");
    assert_eq!(nfqws_platform_dir("powerpc"), "linux-ppc");
    assert_eq!(nfqws_platform_dir("mips"), "linux-x86_64");
    let zip = archive(&[
        ("zapret-v70/binaries/linux-arm64/nfqws", b"arm"),
        ("zapret-v70/binaries/linux-x86_64/", b""),
        ("zapret-v70/binaries/linux-x86_64/nfqws", b"x86 x86 x86 x86"),
    ]);
    assert_eq!(extract_nfqws(zip.clone(), "x86_64"), Ok(b"x86 x86 x86 x86".to_vec()));
    assert_eq!(extract_nfqws(zip.clone(), "aarch64"), Ok(b"arm".to_vec()));
    assert_eq!(
        extract_nfqws(zip, "powerpc"),
        Err("в релизе bol-van нет binaries/linux-ppc/nfqws".to_owned())
    );
    assert!(extract_nfqws(b"no archive".to_vec(), "arm").unwrap_err().starts_with("zip nfqws: "));
}

#[test]
fn a_list_is_taken_out_of_a_release() {
    let zip = archive(&[
        ("lists/list-general.txt", b"first"),
        ("other/lists/list-general.txt", b"second"),
        ("mylists/list-google.txt", b"not this"),
    ]);
    assert_eq!(fetch_default_list(zip.clone(), "list-general.txt"), Ok(b"first".to_vec()));
    assert_eq!(
        fetch_default_list(zip.clone(), "list-google.txt"),
        Err("в релизе нет lists/list-google.txt".to_owned())
    );
    assert!(fetch_default_list(Vec::new(), "x").unwrap_err().starts_with("zip: "));
}

#[test]
fn the_first_wanted_file_is_found() {
    let file = |n: &str| -> Header { Ok((n.to_owned(), true)) };
    let hs = vec![file("a"), Ok(("x/lists/l".to_owned(), false)), file("x\\lists\\l"), file("lists/l")];
    assert_eq!(find_entry(&hs, "lists/l"), Ok(Some(2)));
    assert_eq!(find_entry(&hs, "lists/m"), Ok(None));
    let broken = vec![file("a"), Err("bad".to_owned()), file("lists/l")];
    assert_eq!(find_entry(&broken, "lists/l"), Err("zip entry: bad".to_owned()));
    assert!(wanted("lists/l", "lists/l"));
    assert!(!wanted("mylists/l", "lists/l"));
}

#[test]
fn an_entry_that_is_damaged_is_an_error() {
    let data: Vec<u8> = (0..200u32).map(|i| (i * 7 % 251) as u8).collect();
    let mut zip = archive(&[("l", &data)]);
    // The header of the first entry takes 30 bytes and the name; its data follow.
    for b in zip.iter_mut().skip(31).take(60) {
        *b ^= 0x5a;
    }
    let words = Wording { open: "open: ", read: "read: ", absent: "absent" };
    let r = unpack(zip, "l", &words);
    assert!(matches!(&r, Err(e) if e.starts_with("read: ")), "{r:?}");
}

#[test]
fn the_root_of_a_release_is_found() {
    let dirs = vec!["/t/a".to_owned(), "/t/b".to_owned()];
    assert_eq!(find_core_root("/t", true, &dirs, &[true, true]).as_deref(), Some("/t"));
    assert_eq!(find_core_root("/t", false, &dirs, &[false, true]).as_deref(), Some("/t/b"));
    assert_eq!(find_core_root("/t", false, &dirs, &[false, false]), None);
}

#[test]
fn lists_of_the_user_survive_an_update() {
    assert_eq!(copy_over("list-general-USER.txt", false, true, true), CopyAction::Keep);
    assert_eq!(copy_over("list-general-user.txt", false, false, false), CopyAction::Copy);
    assert_eq!(copy_over("list-general.txt", false, true, false), CopyAction::Copy);
    assert_eq!(copy_over("Winws.EXE", false, false, false), CopyAction::Leave);
    assert_eq!(copy_over("winws.exe", false, false, true), CopyAction::Copy);
    assert_eq!(copy_over("WinDivert.txt", false, false, false), CopyAction::Leave);
    assert_eq!(copy_over("x.exe", true, false, false), CopyAction::Descend);
    assert!(is_windows_artifact("cygwin1.dll"));
    assert!(is_windows_artifact("windivert64.sys"));
    assert!(!is_windows_artifact("quic.bin"));
}

#[test]
fn a_copy_is_tried_again_with_longer_pauses() {
    assert_eq!(copy_with_retry(0), (400, true));
    assert_eq!(copy_with_retry(COPY_TRIES - 1), (2400, false));
}

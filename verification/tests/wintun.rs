use std::io::{Cursor, Write};

use vpn_core::wintun::{
    arch_folder, download_script, find_library, library_from_archive, needs_driver,
};
use zip::write::SimpleFileOptions;
use zip::ZipWriter;

/// An archive with two libraries for one target and one for another.
fn published_archive() -> Vec<u8> {
    let mut writer = ZipWriter::new(Cursor::new(Vec::new()));
    for (name, bytes) in [
        ("wintun/README.md", "read me"),
        ("wintun/bin/x86/wintun.dll", "the library for x86"),
        ("wintun/bin/amd64/wintun.dll", "the library for amd64"),
        ("again/bin/amd64/wintun.dll", "another one"),
    ] {
        writer.start_file(name, SimpleFileOptions::default()).unwrap();
        writer.write_all(bytes.as_bytes()).unwrap();
    }
    writer.finish().unwrap().into_inner()
}

/// Where the header in front of each file begins.
fn file_headers(archive: &[u8]) -> Vec<usize> {
    (0..archive.len() - 4).filter(|&i| archive[i..i + 4] == *b"PK\x03\x04").collect()
}

#[test]
fn folders_of_the_archive() {
    assert_eq!(arch_folder("aarch64-pc-windows-msvc"), "arm64");
    assert_eq!(arch_folder("thumbv7a-pc-windows-msvc"), "arm");
    assert_eq!(arch_folder("i686-pc-windows-msvc"), "x86");
    assert_eq!(arch_folder("i586-pc-windows-msvc"), "x86");
    assert_eq!(arch_folder("x86_64-pc-windows-msvc"), "amd64");
    assert!(needs_driver("x86_64-pc-windows-msvc"));
    assert!(!needs_driver("x86_64-unknown-linux-gnu"));
}

#[test]
fn the_library_in_the_archive() {
    let mut names: Vec<Result<String, String>> =
        ["wintun/", "wintun/bin/x86/wintun.dll", "wintun\\bin\\amd64\\wintun.dll"]
            .iter()
            .map(|s| Ok(s.to_string()))
            .collect();
    assert_eq!(find_library(&names, "x86_64-pc-windows-msvc"), Ok(2));
    assert_eq!(find_library(&names, "i686-pc-windows-msvc"), Ok(1));
    assert_eq!(
        find_library(&names, "aarch64-pc-windows-msvc"),
        Err("entry */bin/arm64/wintun.dll non trovata nello zip Wintun".to_string())
    );
    names.insert(2, Err("broken".to_string()));
    assert_eq!(find_library(&names, "i686-pc-windows-msvc"), Ok(1));
    assert_eq!(find_library(&names, "x86_64-pc-windows-msvc"), Err("broken".to_string()));
}

#[test]
fn the_library_is_taken_out_of_the_archive() {
    let archive = published_archive();
    assert_eq!(
        library_from_archive(&archive, "x86_64-pc-windows-msvc"),
        Ok(b"the library for amd64".to_vec())
    );
    assert_eq!(
        library_from_archive(&archive, "i686-pc-windows-msvc"),
        Ok(b"the library for x86".to_vec())
    );
    assert_eq!(
        library_from_archive(&archive, "aarch64-pc-windows-msvc"),
        Err("entry */bin/arm64/wintun.dll non trovata nello zip Wintun".to_string())
    );
    assert!(library_from_archive(b"no archive", "i686-pc-windows-msvc").is_err());
}

#[test]
fn a_broken_entry_matters_only_in_front_of_the_library() {
    let mut archive = published_archive();
    let headers = file_headers(&archive);
    assert_eq!(headers.len(), 4);
    archive[headers[2]] = b'X';
    assert_eq!(
        library_from_archive(&archive, "i686-pc-windows-msvc"),
        Ok(b"the library for x86".to_vec())
    );
    let broken = library_from_archive(&archive, "x86_64-pc-windows-msvc").unwrap_err();
    assert_ne!(broken, "entry */bin/amd64/wintun.dll non trovata nello zip Wintun");
    assert_eq!(library_from_archive(&archive, "aarch64-pc-windows-msvc"), Err(broken));
}

#[test]
fn the_download() {
    assert_eq!(
        download_script("https://x/y.zip", "C:\\t.zip"),
        "$ProgressPreference='SilentlyContinue'; Invoke-WebRequest -Uri 'https://x/y.zip' -UseBasicParsing -OutFile 'C:\\t.zip'"
    );
}

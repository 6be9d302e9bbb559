use std::io::{Cursor, Write};

use kinito::archive::{unzip_shell, ExtractStep};
use zip::write::FileOptions;
use zip::CompressionMethod;

fn sample_archive() -> Vec<u8> {
    let mut w = zip::ZipWriter::new(Cursor::new(Vec::new()));
    let stored = FileOptions::default().compression_method(CompressionMethod::Stored);
    w.add_directory("app/", stored).unwrap();
    w.start_file("app/build.gradle", stored).unwrap();
    w.write_all(b"applicationId").unwrap();
    w.start_file("../outside.txt", FileOptions::default().compression_method(CompressionMethod::Deflated)).unwrap();
    w.write_all(b"compressed text compressed text").unwrap();
    w.finish().unwrap().into_inner()
}

#[test]
fn unzip_shell_lists_every_entry_in_order() {
    let steps = unzip_shell(&sample_archive(), "/work/shell").unwrap();
    assert_eq!(steps.len(), 3);
    match &steps[0] {
        ExtractStep::Directory { path, parent, mode } => {
            assert_eq!(path, "/work/shell/app");
            assert_eq!(parent.as_deref(), Some("/work/shell"));
            assert_eq!(*mode, Some(0o40755));
        }
        _ => panic!("the first entry is a directory"),
    }
    match &steps[1] {
        ExtractStep::File { path, parent, mode, contents } => {
            assert_eq!(path, "/work/shell/app/build.gradle");
            assert_eq!(parent.as_deref(), Some("/work/shell/app"));
            assert_eq!(*mode, Some(0o100644));
            assert_eq!(contents, b"applicationId");
        }
        _ => panic!("the second entry is a file"),
    }
    match &steps[2] {
        ExtractStep::File { path, contents, .. } => {
            assert_eq!(path, "/work/shell/outside.txt");
            assert_eq!(contents, b"compressed text compressed text");
        }
        _ => panic!("the third entry is a file"),
    }
}

#[test]
fn unzip_shell_refuses_bytes_that_are_no_archive() {
    assert!(unzip_shell(b"not a zip archive", "/work/shell").is_none());
    assert!(unzip_shell(b"", "/work/shell").is_none());
}

#[test]
fn unzip_shell_of_an_empty_archive_does_nothing() {
    let w = zip::ZipWriter::new(Cursor::new(Vec::new()));
    let mut w = w;
    let bytes = w.finish().unwrap().into_inner();
    assert_eq!(unzip_shell(&bytes, "/work/shell").unwrap().len(), 0);
}

#[test]
fn unzip_shell_refuses_a_damaged_entry() {
    let mut bytes = sample_archive();
    let at = bytes.windows(13).position(|w| w == b"applicationId").unwrap();
    bytes[at] = b'A';
    assert!(unzip_shell(&bytes, "/work/shell").is_none());
}

use lookfor::args::split_commas;
use lookfor::report::u64_to_string;
use lookfor::text::{contains_keyword, count_occurrences, extract_runs, split_lines};
use lookfor::walk::{eq_ignore_case, extension_bytes};
use lookfor::writer::MultiWriter;

#[test]
fn containment_is_plain_substring() {
    assert!(contains_keyword(b"hello", b"ell"));
    assert!(contains_keyword(b"hello", b""));
    assert!(!contains_keyword(b"hello", b"elo"));
    assert!(!contains_keyword(b"hi", b"hello"));
}

#[test]
fn occurrences_do_not_overlap() {
    assert_eq!(count_occurrences(b"aaa", b"aa"), 1);
    assert_eq!(count_occurrences(b"aaaa", b"aa"), 2);
    assert_eq!(count_occurrences(b"foo bar foo", b"foo"), 2);
    assert_eq!(count_occurrences(b"abc", b"x"), 0);
    assert_eq!(count_occurrences(b"abc", b""), 4);
}

#[test]
fn lines_split_on_lf_and_drop_crlf() {
    let lines = split_lines(b"one\r\ntwo\nthree");
    assert_eq!(lines, vec![b"one".to_vec(), b"two".to_vec(), b"three".to_vec()]);
    assert_eq!(split_lines(b""), Vec::<Vec<u8>>::new());
    assert_eq!(split_lines(b"a\n"), vec![b"a".to_vec()]);
    assert_eq!(split_lines(b"a\n\n"), vec![b"a".to_vec(), b"".to_vec()]);
}

#[test]
fn printable_runs_are_maximal_and_at_least_four_long() {
    let mut bytes: Vec<u8> = vec![0x01];
    bytes.extend_from_slice(b"abcd");
    bytes.push(0x02);
    bytes.extend_from_slice(b"xy");
    bytes.push(0x00);
    bytes.extend_from_slice(b"long enough");
    let runs = extract_runs(&bytes);
    assert_eq!(runs, vec![b"abcd".to_vec(), b"long enough".to_vec()]);
}

#[test]
fn extension_follows_the_last_dot_of_the_file_name() {
    assert_eq!(extension_bytes(b"dir/file.txt"), Some(b"txt".to_vec()));
    assert_eq!(extension_bytes(b"archive.tar.gz"), Some(b"gz".to_vec()));
    assert_eq!(extension_bytes(b"dir.d/noext"), None);
    assert_eq!(extension_bytes(b".gitignore"), None);
    assert_eq!(extension_bytes(b"trailing."), Some(b"".to_vec()));
}

#[test]
fn extension_comparison_ignores_ascii_case() {
    assert!(eq_ignore_case(b"LoG", b"log"));
    assert!(eq_ignore_case(b"TMP", b"tmp"));
    assert!(!eq_ignore_case(b"log", b"lo"));
    assert!(!eq_ignore_case(b"log", b"lug"));
}

#[test]
fn keyword_lists_split_on_commas() {
    let pieces = split_commas("foo,bar baz,");
    assert_eq!(pieces, vec!["foo".to_string(), "bar baz".to_string(), "".to_string()]);
    assert_eq!(split_commas(""), vec!["".to_string()]);
    assert_eq!(split_commas("a,,b"), vec!["a".to_string(), "".to_string(), "b".to_string()]);
}

#[test]
fn counters_render_in_decimal() {
    assert_eq!(u64_to_string(0), "0");
    assert_eq!(u64_to_string(7), "7");
    assert_eq!(u64_to_string(120), "120");
    assert_eq!(u64_to_string(98765), "98765");
}

#[test]
fn multi_writer_fans_every_write_out() {
    let mut w = MultiWriter::new();
    w.add(Vec::new());
    w.add(Vec::new());
    let n = w.write(b"hi");
    assert_eq!(n, 2);
    w.flush();
    let n2 = w.write(b"!");
    assert_eq!(n2, 1);
    assert_eq!(w.writers, vec![b"hi!".to_vec(), b"hi!".to_vec()]);
}

#[test]
fn multi_writer_with_no_destinations_accepts_writes() {
    let mut w = MultiWriter::new();
    assert_eq!(w.write(b"anything"), 8);
    assert_eq!(w.writers.len(), 0);
}

use hbmon::eventlog::last_n_lines;

#[test]
fn last_n_lines_matches_bufread_semantics() {
    assert_eq!(last_n_lines("a\nb\n", false, 5, None), vec!["a", "b"]);
    assert_eq!(last_n_lines("a\nb", false, 5, None), vec!["a", "b"]);
    assert_eq!(last_n_lines("a\r\nb\r\n", false, 5, None), vec!["a", "b"]);
    assert_eq!(last_n_lines("\n\n", false, 5, None), vec!["", ""]);
    assert_eq!(last_n_lines("xx\ny\nz\n", true, 5, None), vec!["y", "z"]);
    assert_eq!(last_n_lines("a\nb\nc\n", false, 2, None), vec!["b", "c"]);
    let f = last_n_lines("x\nm1\ny\nm2\n", false, 5, Some("m"));
    assert_eq!(f, vec!["m1", "m2"]);
}

#[test]
fn tail_window_that_stops_agrees_with_whole_log() {
    let log = "{\"ev\":\"a\"}\n{\"ev\":\"b\"}\r\n\n{\"ev\":\"a\",\"x\":1}\n{\"ev\":\"c\"}\n";
    for needle in [None, Some("\"ev\":\"a\"")] {
        for n in 1..4usize {
            let whole = last_n_lines(log, false, n, needle);
            for s in 0..log.len() {
                let drop_first = s > 0 && log.as_bytes()[s - 1] != b'\n';
                let got = last_n_lines(&log[s..], drop_first, n, needle);
                if got.len() >= n || s == 0 {
                    assert_eq!(got, whole, "start {s}, n {n}");
                }
            }
        }
    }
}

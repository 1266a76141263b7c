use procdockerstats::record::Record;
use procdockerstats::table::parse_docker_stats;

fn field<'a>(r: &'a Record, name: &str) -> Option<&'a str> {
    r.fields.iter().find(|f| f.0 == name).map(|f| f.1.as_str())
}

#[test]
fn one_matching_line_gives_one_record() {
    let out = "CONTAINER ID   NAME   CPU %\nabc123   web   1.50%\n";
    let recs = parse_docker_stats(out);
    assert_eq!(recs.len(), 1);
    assert_eq!(recs[0].id, "abc123");
    assert_eq!(field(&recs[0], "NAME"), Some("web"));
    assert_eq!(field(&recs[0], "CPU%"), Some("1.50"));
    assert_eq!(recs[0].fields.len(), 2);
}

#[test]
fn short_line_is_dropped() {
    let out = "CONTAINER ID   NAME   CPU %\nabc123   web\ndef456   db   0.00%";
    let recs = parse_docker_stats(out);
    assert_eq!(recs.len(), 1);
    assert_eq!(recs[0].id, "def456");
}

#[test]
fn header_alone_gives_nothing() {
    assert!(parse_docker_stats("").is_empty());
    assert!(parse_docker_stats("CONTAINER ID   NAME   CPU %\n").is_empty());
}

#[test]
fn full_docker_table() {
    let out = "CONTAINER ID   NAME       CPU %     MEM USAGE / LIMIT     MEM %     NET I/O           BLOCK I/O         PIDS\r\n\
               9d5f3c2a1b0e   database   12.34%    1.5GiB / 7.7GiB       19.48%    1.2kB / 3MB       4.1MB / 0B        25\r\n";
    let recs = parse_docker_stats(out);
    assert_eq!(recs.len(), 1);
    let r = &recs[0];
    assert_eq!(r.id, "9d5f3c2a1b0e");
    let names: Vec<&str> = r.fields.iter().map(|f| f.0.as_str()).collect();
    assert_eq!(
        names,
        vec![
            "NAME", "CPU%", "MEM%", "MEM_BYTES", "MEM_LIMIT_BYTES", "NET_IN_BYTES",
            "NET_OUT_BYTES", "BLOCK_IN_BYTES", "BLOCK_OUT_BYTES", "PIDS"
        ]
    );
    assert_eq!(field(r, "CPU%"), Some("12.34"));
    assert_eq!(field(r, "MEM%"), Some("19.48"));
    assert_eq!(field(r, "MEM_BYTES"), Some("1610612736"));
    assert_eq!(field(r, "MEM_LIMIT_BYTES"), Some("8267812044"));
    assert_eq!(field(r, "NET_IN_BYTES"), Some("1200"));
    assert_eq!(field(r, "NET_OUT_BYTES"), Some("3000000"));
    assert_eq!(field(r, "BLOCK_IN_BYTES"), Some("4100000"));
    assert_eq!(field(r, "BLOCK_OUT_BYTES"), Some("0"));
    assert_eq!(field(r, "PIDS"), Some("25"));
}

#[test]
fn usage_without_two_sides_is_left_out() {
    let out = "CONTAINER ID   MEM USAGE / LIMIT   NET I/O\nabc   1MiB   1kB / 2kB / 3kB\n";
    let recs = parse_docker_stats(out);
    assert_eq!(recs.len(), 1);
    assert_eq!(recs[0].fields.len(), 0);
}

#[test]
fn table_without_id_column_gives_nothing() {
    let out = "NAME   CPU %\nweb   1%\n";
    assert!(parse_docker_stats(out).is_empty());
}

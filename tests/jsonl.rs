use procdockerstats::jsonl::parse_docker_json_lines;
use procdockerstats::record::Record;

fn field<'a>(r: &'a Record, name: &str) -> Option<&'a str> {
    r.fields.iter().find(|f| f.0 == name).map(|f| f.1.as_str())
}

const LIVE: &str = r#"{"BlockIO":"4.1MB / 0B","CPUPerc":"12.34%","Container":"9d5f","ID":"9d5f","MemPerc":"19.48%","MemUsage":"1.5GiB / 7.7GiB","Name":"database","NetIO":"1.2kB / 3MB","PIDs":"25"}"#;

#[test]
fn placeholder_name_is_excluded() {
    let out = format!(
        "{}\n{}\n",
        LIVE, r#"{"ID":"0000","Name":"—-","CPUPerc":"0.00%","PIDs":"0"}"#
    );
    let recs = parse_docker_json_lines(&out);
    assert_eq!(recs.len(), 1);
    assert_eq!(recs[0].id, "9d5f");
    let dashes = r#"{"ID":"1111","Name":"--"}"#;
    let empty = r#"{"ID":"2222","Name":""}"#;
    let nameless = r#"{"ID":"3333"}"#;
    assert!(parse_docker_json_lines(&format!("{}\n{}\n{}", dashes, empty, nameless)).is_empty());
}

#[test]
fn malformed_line_is_skipped() {
    let out = format!(
        "{}\n{}\n\n{}\n",
        r#"{"ID":"aaaa","Name":"web""#,
        r#"not json at all"#,
        r#"{"ID":"bbbb","Name":"cache","CPUPerc":"3%"}"#
    );
    let recs = parse_docker_json_lines(&out);
    assert_eq!(recs.len(), 1);
    assert_eq!(recs[0].id, "bbbb");
    assert_eq!(field(&recs[0], "CPU%"), Some("3"));
}

#[test]
fn json_record_matches_table_record() {
    let recs = parse_docker_json_lines(LIVE);
    assert_eq!(recs.len(), 1);
    let r = &recs[0];
    assert_eq!(field(r, "NAME"), Some("database"));
    assert_eq!(field(r, "CPU%"), Some("12.34"));
    assert_eq!(field(r, "MEM%"), Some("19.48"));
    assert_eq!(field(r, "MEM_BYTES"), Some("1610612736"));
    assert_eq!(field(r, "MEM_LIMIT_BYTES"), Some("8267812044"));
    assert_eq!(field(r, "NET_IN_BYTES"), Some("1200"));
    assert_eq!(field(r, "NET_OUT_BYTES"), Some("3000000"));
    assert_eq!(field(r, "BLOCK_IN_BYTES"), Some("4100000"));
    assert_eq!(field(r, "BLOCK_OUT_BYTES"), Some("0"));
    assert_eq!(field(r, "PIDS"), Some("25"));
}

#[test]
fn escapes_are_decoded() {
    let line = r#"  { "ID" : "c1" , "Name" : "a\"b\\c\u00e9\ud83d\ude00\n" }  "#;
    let recs = parse_docker_json_lines(line);
    assert_eq!(recs.len(), 1);
    assert_eq!(field(&recs[0], "NAME"), Some("a\"b\\c\u{e9}\u{1F600}\n"));
}

#[test]
fn bad_strings_are_malformed() {
    assert!(parse_docker_json_lines(r#"{"ID":"c1","Name":"\ud83d"}"#).is_empty());
    assert!(parse_docker_json_lines(r#"{"ID":"c1","Name":"\q"}"#).is_empty());
    assert!(parse_docker_json_lines(r#"{"ID":"c1","Name":"x"} trailing"#).is_empty());
    assert!(parse_docker_json_lines(r#"{"ID":"c1","Name":"x",}"#).is_empty());
    assert!(parse_docker_json_lines("{\"ID\":\"c1\",\"Name\":\"a\tb\"}").is_empty());
    assert!(parse_docker_json_lines(r#"{"ID":"c1","PIDs":3,"Name":"x"}"#).is_empty());
}

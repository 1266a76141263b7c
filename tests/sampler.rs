use procdockerstats::record::Record;
use procdockerstats::sampler::{
    get_terminal_name, process_record, sample_processes, select_top, ProcStatus, ProcessSample,
    TOP_PROCESSES,
};

fn cpu_reading(x: f32) -> Option<u64> {
    if x.is_finite() {
        Some((x as f64 * 100.0).round() as u64)
    } else {
        None
    }
}

fn sample(pid: u32, cpu: Option<u64>) -> ProcessSample {
    ProcessSample {
        pid,
        status: ProcStatus::Live,
        cpu_centi: cpu,
        memory: 0,
        start_time: 0,
        uid: None,
        parent: None,
        tty: None,
        cpu_time_ms: 0,
        cmd: Vec::new(),
    }
}

fn field<'a>(r: &'a Record, name: &str) -> &'a str {
    r.fields.iter().find(|f| f.0 == name).map(|f| f.1.as_str()).unwrap()
}

#[test]
fn nan_reading_ranks_last() {
    let samples = vec![
        sample(10, cpu_reading(5.0)),
        sample(11, cpu_reading(f32::NAN)),
        sample(12, cpu_reading(10.0)),
    ];
    assert_eq!(select_top(&samples, TOP_PROCESSES), vec![2, 0, 1]);
    let recs = sample_processes(&samples, 1000);
    assert_eq!(recs.len(), 3);
    assert_eq!(recs[2].id, "11");
    assert_eq!(field(&recs[2], "CPU(%)"), "0.00");
    assert_eq!(field(&recs[0], "CPU(%)"), "10.00");
}

#[test]
fn at_most_1024_processes() {
    let samples: Vec<ProcessSample> =
        (0..2000u32).map(|i| sample(i + 1, Some((i as u64 * 7919) % 5000))).collect();
    let top = select_top(&samples, TOP_PROCESSES);
    assert_eq!(top.len(), 1024);
    let least = top.iter().map(|&i| samples[i].cpu_centi.unwrap()).min().unwrap();
    for (i, s) in samples.iter().enumerate() {
        if !top.contains(&i) {
            assert!(s.cpu_centi.unwrap() <= least);
        }
    }
    for w in top.windows(2) {
        assert!(samples[w[0]].cpu_centi >= samples[w[1]].cpu_centi);
    }
    assert_eq!(sample_processes(&samples, 1 << 30).len(), 1024);
}

#[test]
fn zombies_and_unknown_are_left_out() {
    let mut a = sample(1, Some(900));
    a.status = ProcStatus::Zombie;
    let mut b = sample(2, Some(800));
    b.status = ProcStatus::Unknown;
    let c = sample(3, Some(1));
    assert_eq!(select_top(&vec![a, b, c], TOP_PROCESSES), vec![2]);
}

#[test]
fn record_fields_are_formatted() {
    let p = ProcessSample {
        pid: 4242,
        status: ProcStatus::Live,
        cpu_centi: Some(1234),
        memory: 256 * 1024 * 1024,
        start_time: 1704412800,
        uid: Some(1000),
        parent: None,
        tty: Some((136, 3)),
        cpu_time_ms: 3723_999,
        cmd: vec!["/usr/bin/dockerd".to_string(), "-H".to_string(), "fd://".to_string()],
    };
    let r = process_record(&p, 1024 * 1024 * 1024, "Jan05");
    assert_eq!(r.id, "4242");
    let got: Vec<(&str, &str)> = r.fields.iter().map(|f| (f.0.as_str(), f.1.as_str())).collect();
    assert_eq!(
        got,
        vec![
            ("PID", "4242"),
            ("UID", "1000"),
            ("PPID", ""),
            ("CPU(%)", "12.34"),
            ("MEM(%)", "25.0"),
            ("STIME", "Jan05"),
            ("TT", "pts/3"),
            ("TIME", "1:02:03"),
            ("CMD", "/usr/bin/dockerd -H fd://"),
        ]
    );
}

#[test]
fn short_cpu_time_has_no_hours() {
    let mut p = sample(7, Some(5));
    p.cpu_time_ms = 125_000;
    p.memory = 1;
    let r = process_record(&p, 3, "Feb29");
    assert_eq!(field(&r, "TIME"), "2:05");
    assert_eq!(field(&r, "MEM(%)"), "33.3");
    assert_eq!(field(&r, "CPU(%)"), "0.05");
    assert_eq!(field(&r, "TT"), "?");
    assert_eq!(field(&r, "CMD"), "");
}

#[test]
fn start_day_comes_from_the_calendar() {
    let mut p = sample(9, Some(1));
    p.start_time = 1704412800;
    let recs = sample_processes(&vec![p], 1);
    assert_eq!(field(&recs[0], "STIME"), "Jan05");
    let mut q = sample(9, Some(1));
    q.start_time = 0;
    let recs = sample_processes(&vec![q], 1);
    assert_eq!(field(&recs[0], "STIME"), "Jan01");
}

#[test]
fn terminal_names() {
    assert_eq!(get_terminal_name(None), "?");
    assert_eq!(get_terminal_name(Some((0, 0))), "?");
    assert_eq!(get_terminal_name(Some((136, 12))), "pts/12");
}

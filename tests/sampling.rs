use sysmon::display::{init, nicen_seconds};
use sysmon::load::{get_core_load, get_cpu_loads};
use sysmon::monitor::{CoreTime, CpuTime, FilesContent, MonitorError, Source, SysInfo};
use sysmon::sample::sys_info_from_texts;

fn row(time: [u64; 10]) -> CoreTime {
    CoreTime { time }
}

fn stat_text(rows: &[[u64; 10]]) -> String {
    let mut s = String::from("cpu  0 0 0 0 0 0 0 0 0 0\n");
    for (i, r) in rows.iter().enumerate() {
        s.push_str(&format!("cpu{}", i));
        for v in r.iter() {
            s.push_str(&format!(" {}", v));
        }
        s.push('\n');
    }
    s.push_str("intr 0\n");
    s
}

fn files(stat: String) -> FilesContent {
    FilesContent {
        stat,
        cpu_info: "processor\t: 0\ncpu MHz\t\t: 2400.500\nprocessor\t: 1\ncpu MHz\t\t: 1200.000\n"
            .to_string(),
        mem_info: "MemTotal: 8000 kB\nMemFree: 500 kB\nMemAvailable: 3000 kB\n".to_string(),
        uptime: "3725.40 100.00\n".to_string(),
        kernel: "Linux version 5.15.0-generic (build@host) #1\n".to_string(),
        distro: "NAME=\"Ubuntu\"\nPRETTY_NAME=\"Ubuntu 22.04.1 LTS\"\n".to_string(),
    }
}

fn run(first: &[[u64; 10]], second: &[[u64; 10]]) -> SysInfo {
    let r = sys_info_from_texts(stat_text(first), files(stat_text(second)));
    match r {
        Ok(info) => info,
        Err(e) => panic!("sample failed: {:?}", e),
    }
}

fn error_of(first: String, f: FilesContent) -> MonitorError {
    match sys_info_from_texts(first, f) {
        Ok(_) => panic!("sample should fail"),
        Err(e) => e,
    }
}

#[test]
fn core_load_of_known_deltas() {
    // busy fields 0,1,2,5..9 rise by 1+2+3+6+7+8+9+10 = 46; idle fields 1 and 4 by 2+5 = 7
    let a = row([10, 20, 30, 40, 50, 60, 70, 80, 90, 100]);
    let b = row([11, 22, 33, 44, 55, 66, 77, 88, 99, 110]);
    let l = get_core_load(&a, &b);
    assert_eq!(l.busy, 46);
    assert_eq!(l.elapsed, 53);
    assert_eq!(l.fraction(), (46, 53));
    assert!(l.busy <= l.elapsed);
}

#[test]
fn core_load_within_unit_for_increasing_counters() {
    let a = row([5, 0, 7, 1000, 3, 0, 0, 0, 0, 0]);
    let b = row([9, 0, 7, 5000, 3, 0, 0, 0, 0, 0]);
    let l = get_core_load(&a, &b);
    let (n, d) = l.fraction();
    let f = n as f64 / d as f64;
    assert!(f >= 0.0 && f <= 1.0);
    assert_eq!((n, d), (4, 4));
}

#[test]
fn core_load_of_identical_snapshots_is_zero() {
    let a = row([1, 2, 3, 4, 5, 6, 7, 8, 9, 10]);
    let l = get_core_load(&a, &a);
    assert_eq!(l.busy, 0);
    assert_eq!(l.elapsed, 0);
    let (n, d) = l.fraction();
    assert_eq!((n, d), (0, 1));
    assert!((n as f64 / d as f64).is_finite());
}

#[test]
fn core_load_counter_that_went_back_counts_as_no_growth() {
    let a = row([10, 0, 0, 0, 9, 0, 0, 0, 0, 0]);
    let b = row([15, 0, 0, 0, 4, 0, 0, 0, 0, 0]);
    let l = get_core_load(&a, &b);
    assert_eq!(l.busy, 5);
    assert_eq!(l.elapsed, 5);
}

#[test]
fn core_load_largest_counters_do_not_overflow() {
    let a = row([0; 10]);
    let b = row([u64::MAX; 10]);
    let l = get_core_load(&a, &b);
    assert_eq!(l.busy, 8 * (u64::MAX as u128));
    assert_eq!(l.elapsed, 10 * (u64::MAX as u128));
}

#[test]
fn cpu_loads_pair_rows_by_position() {
    let t1 = CpuTime { times: vec![row([0; 10]), row([1, 1, 1, 1, 1, 1, 1, 1, 1, 1])] };
    let t2 = CpuTime { times: vec![row([2, 0, 0, 0, 2, 0, 0, 0, 0, 0]), row([1, 1, 1, 1, 1, 1, 1, 1, 1, 1])] };
    let l = get_cpu_loads(t1, t2);
    assert_eq!(l.loads.len(), 2);
    assert_eq!((l.loads[0].busy, l.loads[0].elapsed), (2, 4));
    assert_eq!((l.loads[1].busy, l.loads[1].elapsed), (0, 0));
}

#[test]
fn sample_end_to_end() {
    let first = [[100, 0, 50, 1000, 0, 0, 0, 0, 0, 0], [200, 10, 20, 900, 5, 0, 0, 0, 0, 0]];
    let second = [[160, 0, 90, 1100, 0, 0, 0, 0, 0, 0], [230, 15, 20, 950, 10, 0, 0, 0, 0, 0]];
    let info = run(&first, &second);
    assert_eq!(info.cpu.load.loads.len(), 2);
    assert_eq!((info.cpu.load.loads[0].busy, info.cpu.load.loads[0].elapsed), (100, 100));
    assert_eq!((info.cpu.load.loads[1].busy, info.cpu.load.loads[1].elapsed), (35, 45));
    assert_eq!(info.cpu.freq.freqs, vec![2400, 1200]);
    assert_eq!(info.cpu.core_count, 2);
    assert_eq!(info.mem.total, 8000);
    assert_eq!(info.mem.taken, 5000);
    assert_eq!(info.misc.uptime, 3725);
    assert_eq!(info.misc.kernel, "5.15.0-generic");
    assert_eq!(info.misc.distro, "Ubuntu 22.04.1 LTS");
}

#[test]
fn sample_system_field_change_moves_only_its_core() {
    let first = [[100, 0, 50, 1000, 0, 0, 0, 0, 0, 0], [200, 10, 20, 900, 5, 0, 0, 0, 0, 0]];
    let second = [[160, 0, 90, 1100, 0, 0, 0, 0, 0, 0], [230, 15, 40, 950, 10, 0, 0, 0, 0, 0]];
    let mut lower = second;
    lower[1][2] = 25;
    let base = run(&first, &second);
    let changed = run(&first, &lower);
    let frac = |b: &SysInfo, i: usize| {
        let (n, d) = b.cpu.load.loads[i].fraction();
        n as f64 / d as f64
    };
    assert_eq!(frac(&base, 0), frac(&changed, 0));
    assert!(frac(&changed, 1) < frac(&base, 1));
}

#[test]
fn sample_raised_system_field_raises_only_its_core() {
    let first = [[100, 0, 50, 1000, 0, 0, 0, 0, 0, 0], [200, 10, 20, 900, 5, 0, 0, 0, 0, 0]];
    let second = [[160, 0, 90, 1100, 0, 0, 0, 0, 0, 0], [230, 15, 40, 950, 10, 0, 0, 0, 0, 0]];
    let mut higher = second;
    higher[1][2] = 70;
    let base = run(&first, &second);
    let changed = run(&first, &higher);
    let l0 = (base.cpu.load.loads[0].busy, base.cpu.load.loads[0].elapsed);
    let c0 = (changed.cpu.load.loads[0].busy, changed.cpu.load.loads[0].elapsed);
    assert_eq!(l0, c0);
    let (bn, bd) = base.cpu.load.loads[1].fraction();
    let (cn, cd) = changed.cpu.load.loads[1].fraction();
    assert_eq!((bn, bd), (55, 65));
    assert_eq!((cn, cd), (85, 95));
    assert!(bn * cd < cn * bd);
}

#[test]
fn sample_identical_counters_give_zero_load() {
    let rows = [[1, 2, 3, 4, 5, 6, 7, 8, 9, 10], [10, 9, 8, 7, 6, 5, 4, 3, 2, 1]];
    let info = run(&rows, &rows);
    for l in info.cpu.load.loads.iter() {
        assert_eq!(l.fraction(), (0, 1));
    }
}

#[test]
fn sample_errors_name_the_source() {
    let good = stat_text(&[[1; 10]]);
    assert_eq!(error_of("cpu\ncpu0 1\n".to_string(), files(good.clone())), MonitorError::Parse(Source::Stat));
    assert_eq!(error_of(good.clone(), files("x\ncpu0 z\n".to_string())), MonitorError::Parse(Source::Stat));
    assert_eq!(
        error_of(good.clone(), files(stat_text(&[[1; 10], [2; 10]]))),
        MonitorError::Parse(Source::Stat)
    );
    let mut f = files(good.clone());
    f.cpu_info = "cpu MHz : ?\n".to_string();
    assert_eq!(error_of(good.clone(), f), MonitorError::Parse(Source::CpuInfo));
    let mut f = files(good.clone());
    f.mem_info = "MemTotal: 1 kB\n".to_string();
    assert_eq!(error_of(good.clone(), f), MonitorError::Parse(Source::MemInfo));
    let mut f = files(good.clone());
    f.uptime = "".to_string();
    assert_eq!(error_of(good.clone(), f), MonitorError::Parse(Source::Uptime));
    let mut f = files(good.clone());
    f.kernel = "Linux".to_string();
    assert_eq!(error_of(good.clone(), f), MonitorError::Parse(Source::Kernel));
    let mut f = files(good.clone());
    f.distro = "ID=x\n".to_string();
    assert_eq!(error_of(good, f), MonitorError::Parse(Source::Distro));
}

#[test]
fn clock_text_pads_each_part() {
    init();
    assert_eq!(nicen_seconds(0), "00:00:00");
    assert_eq!(nicen_seconds(3661), "01:01:01");
    assert_eq!(nicen_seconds(86399), "23:59:59");
    assert_eq!(nicen_seconds(360000), "100:00:00");
}

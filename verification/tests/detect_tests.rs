use why_linux::detect::detect_sustained_high_cpu;
use why_linux::detect::detect_sustained_high_disk;
use why_linux::detect::detect_sustained_high_mem;
use why_linux::detect::mem_system_high;
use why_linux::detect::MemTick;
use why_linux::samples::CpuSample;
use why_linux::samples::DiskSample;
use why_linux::samples::MemSample;

fn cpu(pid: u32, hundredths: u64) -> CpuSample {
    CpuSample {
        name: format!("proc{}", pid),
        pid,
        cpu: hundredths,
    }
}

#[test]
fn cpu_sustained_fires_on_last_qualifying_tick() {
    // Per-tick CPU shares 10 %, 25 %, 30 %, 15 %, 40 % against a 20 %
    // threshold: hits on ticks 2, 3 and 5, so with a floor of 3 the
    // detector returns tick 5's sample.
    let ticks = vec![
        Some(cpu(1, 1000)),
        Some(cpu(2, 2500)),
        Some(cpu(3, 3000)),
        Some(cpu(4, 1500)),
        Some(cpu(5, 4000)),
    ];
    let r = detect_sustained_high_cpu(&ticks, 2000, 3).expect("three hits reach the floor");
    assert_eq!(r.cpu, 4000);
    assert_eq!(r.pid, 5);
}

#[test]
fn cpu_sustained_absent_below_min_hits() {
    let ticks = vec![Some(cpu(1, 2500)), Some(cpu(2, 1000)), Some(cpu(3, 2500))];
    assert!(detect_sustained_high_cpu(&ticks, 2000, 3).is_none());
}

#[test]
fn cpu_threshold_is_strict() {
    // A share exactly at the threshold is not a hit.
    let ticks = vec![Some(cpu(1, 2000)), Some(cpu(2, 2000))];
    assert!(detect_sustained_high_cpu(&ticks, 2000, 1).is_none());
}

#[test]
fn cpu_missing_ticks_are_skipped() {
    let ticks = vec![None, Some(cpu(2, 2500)), None];
    let r = detect_sustained_high_cpu(&ticks, 2000, 1).unwrap();
    assert_eq!(r.pid, 2);
}

#[test]
fn cpu_min_hits_above_window_never_fires() {
    // minHits larger than the window is a valid, degenerate
    // configuration: the detector can never fire.
    let ticks = vec![Some(cpu(1, 9000)), Some(cpu(2, 9000))];
    assert!(detect_sustained_high_cpu(&ticks, 2000, 3).is_none());
}

#[test]
fn cpu_empty_window_is_absent() {
    let ticks: Vec<Option<CpuSample>> = Vec::new();
    assert!(detect_sustained_high_cpu(&ticks, 2000, 1).is_none());
}

#[test]
fn mem_detector_stays_quiet_below_threshold() {
    // System-used shares 50 %, 60 %, 55 %, 70 %, 65 % never cross an
    // 80 % threshold: zero hits, absent result.
    let sys = [5000u64, 6000, 5500, 7000, 6500];
    let ticks: Vec<MemTick> = sys
        .iter()
        .map(|&u| MemTick {
            sys_used: Some(u),
            top: Some(MemSample {
                name: "hog".to_string(),
                pid: 9,
                mem: 1000,
                used_percent: u,
            }),
        })
        .collect();
    assert!(detect_sustained_high_mem(&ticks, 8000, 2).is_none());
}

#[test]
fn mem_detector_attributes_last_qualifying_top() {
    let ticks = vec![
        MemTick {
            sys_used: Some(8500),
            top: Some(MemSample {
                name: "a".to_string(),
                pid: 1,
                mem: 1000,
                used_percent: 8500,
            }),
        },
        MemTick {
            sys_used: Some(7000),
            top: None,
        },
        MemTick {
            sys_used: Some(9000),
            top: Some(MemSample {
                name: "b".to_string(),
                pid: 2,
                mem: 2000,
                used_percent: 9000,
            }),
        },
    ];
    let r = detect_sustained_high_mem(&ticks, 8000, 2).unwrap();
    assert_eq!(r.pid, 2);
    assert_eq!(r.mem, 2000);
}

#[test]
fn mem_tick_without_top_sample_is_no_hit() {
    let ticks = vec![
        MemTick {
            sys_used: Some(9000),
            top: None,
        },
        MemTick {
            sys_used: Some(9000),
            top: None,
        },
    ];
    assert!(detect_sustained_high_mem(&ticks, 8000, 1).is_none());
}

#[test]
fn mem_system_high_guides_fetching() {
    assert!(mem_system_high(&Some(8500), 8000));
    assert!(!mem_system_high(&Some(8000), 8000));
    assert!(!mem_system_high(&None, 8000));
}

#[test]
fn disk_sustained_returns_last_qualifying_mount() {
    let mk = |fs: &str, used: u64| DiskSample {
        fs: fs.to_string(),
        mount: "/".to_string(),
        used_percent: used,
    };
    let ticks = vec![
        Some(mk("sda1", 9500)),
        Some(mk("sda2", 8000)),
        Some(mk("sda3", 9200)),
    ];
    let r = detect_sustained_high_disk(&ticks, 9000, 2).unwrap();
    assert_eq!(r.fs, "sda3");
    assert_eq!(r.used_percent, 9200);
}

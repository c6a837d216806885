use why_linux::cpu::is_helper_name;
use why_linux::cpu::resolve_top_cpu;
use why_linux::disk::top_mount_index;
use why_linux::explain::explain_process;
use why_linux::mem::mem_used_percent;
use why_linux::mem::pick_top_mem;
use why_linux::mem::PsMemRow;
use why_linux::run::RunRecorder;
use why_linux::samples::CpuSample;
use why_linux::samples::DiskSample;
use why_linux::samples::MemSample;
use why_linux::summary::avg_of;
use why_linux::summary::max_of;

#[test]
fn avg_and_max_of_series() {
    let v = vec![1000u64, 2000, 3000];
    assert_eq!(avg_of(&v), 2000);
    assert_eq!(max_of(&v), 3000);
    let empty: Vec<u64> = Vec::new();
    assert_eq!(avg_of(&empty), 0);
    assert_eq!(max_of(&empty), 0);
}

#[test]
fn avg_rounds_down() {
    let v = vec![1u64, 2];
    assert_eq!(avg_of(&v), 1);
}

#[test]
fn mem_used_percent_scales_to_hundredths() {
    // 1000 kB total, 750 kB available: 25.00 % used.
    assert_eq!(mem_used_percent(1000, 750), Some(2500));
    assert_eq!(mem_used_percent(1000, 0), Some(10000));
    assert_eq!(mem_used_percent(1000, 1000), Some(0));
}

#[test]
fn mem_used_percent_rejects_zero_total() {
    assert_eq!(mem_used_percent(0, 50), None);
}

#[test]
fn mem_used_percent_clamps_backwards_figures() {
    // More available than total reads as nothing used.
    assert_eq!(mem_used_percent(1000, 2000), Some(0));
}

#[test]
fn pick_top_mem_skips_excluded_pid() {
    let rows = vec![
        PsMemRow {
            pid: 10,
            name: "self".to_string(),
            mem: 5000,
        },
        PsMemRow {
            pid: 20,
            name: "hog".to_string(),
            mem: 4000,
        },
    ];
    assert_eq!(pick_top_mem(&rows, Some(10)), Some(1));
    assert_eq!(pick_top_mem(&rows, None), Some(0));
    assert_eq!(pick_top_mem(&rows, Some(99)), Some(0));
}

#[test]
fn pick_top_mem_exhausted_is_absent() {
    let rows = vec![PsMemRow {
        pid: 10,
        name: "self".to_string(),
        mem: 5000,
    }];
    assert_eq!(pick_top_mem(&rows, Some(10)), None);
    let empty: Vec<PsMemRow> = Vec::new();
    assert_eq!(pick_top_mem(&empty, None), None);
}

#[test]
fn top_mount_keeps_first_of_equal_maxima() {
    let mk = |fs: &str, used: u64| DiskSample {
        fs: fs.to_string(),
        mount: format!("/{}", fs),
        used_percent: used,
    };
    let rows = vec![mk("a", 4000), mk("b", 9000), mk("c", 9000), mk("d", 100)];
    assert_eq!(top_mount_index(&rows), Some(1));
    let empty: Vec<DiskSample> = Vec::new();
    assert_eq!(top_mount_index(&empty), None);
}

#[test]
fn helper_names_resolve_to_parent() {
    assert!(is_helper_name("Web"));
    assert!(is_helper_name("GPU"));
    assert!(!is_helper_name("firefox"));

    let helper = CpuSample {
        name: "Web".to_string(),
        pid: 42,
        cpu: 3000,
    };
    let parent = CpuSample {
        name: "firefox".to_string(),
        pid: 40,
        cpu: 3500,
    };
    let resolved = resolve_top_cpu(helper, Some(parent));
    assert_eq!(resolved.pid, 40);
    assert_eq!(resolved.name, "firefox");
}

#[test]
fn non_helper_keeps_its_own_attribution() {
    let plain = CpuSample {
        name: "rustc".to_string(),
        pid: 5,
        cpu: 9000,
    };
    let parent = CpuSample {
        name: "cargo".to_string(),
        pid: 4,
        cpu: 100,
    };
    let resolved = resolve_top_cpu(plain, Some(parent));
    assert_eq!(resolved.pid, 5);
}

#[test]
fn helper_without_parent_stands_as_observed() {
    let helper = CpuSample {
        name: "GPU".to_string(),
        pid: 42,
        cpu: 3000,
    };
    let resolved = resolve_top_cpu(helper, None);
    assert_eq!(resolved.pid, 42);
}

#[test]
fn explanations_cover_known_names_and_default() {
    assert!(explain_process("firefox").starts_with("Firefox CPU usage"));
    assert!(explain_process("chromium").starts_with("Chromium-based browsers"));
    assert_eq!(explain_process("chromium"), explain_process("chrome"));
    assert!(explain_process("kworker").starts_with("kworker is a kernel thread"));
    assert!(explain_process("disk").starts_with("High filesystem usage"));
    assert!(explain_process("io").starts_with("High disk I/O"));
    assert!(explain_process("somethingelse").starts_with("Sustained high resource usage"));
    assert!(explain_process("").starts_with("Sustained high resource usage"));
}

#[test]
fn recorder_builds_the_full_document() {
    let mut rec = RunRecorder::new();
    rec.record_tick(
        1000,
        Some(CpuSample {
            name: "a".to_string(),
            pid: 1,
            cpu: 1000,
        }),
        Some(MemSample {
            name: "m".to_string(),
            pid: 2,
            mem: 4000,
            used_percent: 6000,
        }),
        Some(DiskSample {
            fs: "sda1".to_string(),
            mount: "/".to_string(),
            used_percent: 7000,
        }),
    );
    rec.record_tick(
        1001,
        Some(CpuSample {
            name: "a".to_string(),
            pid: 1,
            cpu: 3000,
        }),
        None,
        None,
    );
    let doc = rec.assemble_report(None, None, None, None, 5);
    assert_eq!(doc.timeline.len(), 2);
    assert_eq!(doc.timeline[0].ts, 1000);
    assert_eq!(doc.summary.cpu_avg, 2000);
    assert_eq!(doc.summary.cpu_max, 3000);
    // An absent sample contributes zero to its series.
    assert_eq!(doc.summary.mem_avg, 2000);
    assert_eq!(doc.summary.mem_system_max, 6000);
    assert_eq!(doc.summary.disk_avg, 3500);
    assert_eq!(doc.cpu_offenders.len(), 1);
    assert_eq!(doc.cpu_offenders[0].pid, 1);
    assert_eq!(doc.cpu_offenders[0].sum, 4000);
    assert_eq!(doc.cpu_offenders[0].max, 3000);
    assert_eq!(doc.mem_offenders.len(), 1);
    assert_eq!(doc.mem_offenders[0].sum, 4000);
    assert!(doc.cpu.is_none() && doc.io.is_none());
}

#[test]
fn recorder_passes_detector_results_through() {
    let rec = RunRecorder::new();
    let io = why_linux::samples::IoSample {
        pid: 3,
        name: "dd".to_string(),
        read_bps: 1,
        write_bps: 2,
    };
    let doc = rec.assemble_report(None, None, None, Some(io), 3);
    let got = doc.io.expect("result is handed through");
    assert_eq!(got.pid, 3);
    assert_eq!(got.write_bps, 2);
}

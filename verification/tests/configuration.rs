use hecate_vm::config::{
    config_from_scores, parse_syscall_score, syscall_cycles_for, LatencyConfigRaw, SimConfig,
    SimConfigRaw,
};
use std::collections::HashMap;

fn raw(entries: &[(&str, u64)]) -> SimConfigRaw {
    SimConfigRaw {
        syscall_cycles: entries.iter().map(|(key, n)| (key.to_string(), *n)).collect(),
        ..SimConfigRaw::default()
    }
}

fn entries(config: &SimConfigRaw) -> Vec<(String, u64)> {
    let mut all = config.syscall_cycles.clone();
    all.sort();
    all
}

#[test]
fn defaults() {
    let config = SimConfigRaw::default().resolve().unwrap();
    assert_eq!(config.default_syscall_cycles, 500);
    assert_eq!(config.io_cycles_per_byte, 20);
    assert_eq!(config.l1_latency, 3);
    assert_eq!(config.l2_latency, 11);
    assert_eq!(config.l3_latency, 50);
    assert_eq!(config.memory_latency, 125);
    assert_eq!(config.store_latency, 1);
    assert!(config.syscall_cycles.is_empty());
    assert_eq!(SimConfig::default().memory_latency, 125);
}

#[test]
fn given_values_count() {
    let config = SimConfigRaw {
        default_syscall_cycles: Some(1),
        io_cycles_per_byte: Some(2),
        latency: LatencyConfigRaw {
            l1: Some(3),
            l2: Some(4),
            l3: Some(5),
            memory: Some(6),
            store: Some(7),
        },
        syscall_cycles: vec![("64".to_string(), 8), ("0x5d".to_string(), 9)],
    }
    .resolve()
    .unwrap();
    assert_eq!(
        (
            config.default_syscall_cycles,
            config.io_cycles_per_byte,
            config.l1_latency,
            config.l2_latency,
            config.l3_latency,
            config.memory_latency,
            config.store_latency
        ),
        (1, 2, 3, 4, 5, 6, 7)
    );
    assert_eq!(config.syscall_cycles, HashMap::from([(64, 8), (93, 9)]));
}

#[test]
fn keys_have_to_be_numbers() {
    assert_eq!(
        raw(&[("1", 1), ("write", 2), ("x", 3)]).resolve().unwrap_err(),
        "invalid syscall key in config: invalid u32 'write': invalid digit found in string"
    );
    assert_eq!(
        raw(&[("0x100000000", 2)]).resolve().unwrap_err(),
        "invalid syscall key in config: invalid u32 hex '0x100000000': \
         number too large to fit in target type"
    );
}

#[test]
fn two_keys_for_one_number() {
    let config = raw(&[("64", 1), ("0x40", 2)]).resolve().unwrap();
    assert_eq!(config.syscall_cycles, HashMap::from([(64, 2)]));
}

#[test]
fn the_upper_file_counts() {
    let lower = SimConfigRaw {
        default_syscall_cycles: Some(1),
        io_cycles_per_byte: Some(2),
        latency: LatencyConfigRaw { l1: Some(3), l2: Some(4), l3: None, memory: None, store: None },
        ..raw(&[("64", 1), ("93", 2)])
    };
    let upper = SimConfigRaw {
        default_syscall_cycles: Some(10),
        io_cycles_per_byte: None,
        latency: LatencyConfigRaw { l1: None, l2: Some(40), l3: Some(50), memory: None, store: None },
        ..raw(&[("93", 20), ("7", 30)])
    };
    let merged = lower.merge_with(upper);
    assert_eq!(merged.default_syscall_cycles, Some(10));
    assert_eq!(merged.io_cycles_per_byte, Some(2));
    assert_eq!(
        merged.latency,
        LatencyConfigRaw { l1: Some(3), l2: Some(40), l3: Some(50), memory: None, store: None }
    );
    assert_eq!(
        entries(&merged),
        vec![("64".to_string(), 1), ("7".to_string(), 30), ("93".to_string(), 20)]
    );
}

#[test]
fn merging_with_nothing() {
    let once = raw(&[("1", 1), ("2", 2)]).merge_with(SimConfigRaw::default());
    assert_eq!(entries(&once), entries(&raw(&[("1", 1), ("2", 2)])));
    let twice = SimConfigRaw::default().merge_with(once);
    assert_eq!(entries(&twice), entries(&raw(&[("1", 1), ("2", 2)])));
    assert_eq!(twice.default_syscall_cycles, None);
}

#[test]
fn merging_in_any_grouping() {
    let a = || raw(&[("1", 1), ("2", 1)]);
    let b = || raw(&[("2", 2), ("3", 2)]);
    let c = || raw(&[("3", 3), ("4", 3)]);
    let left = a().merge_with(b()).merge_with(c());
    let right = a().merge_with(b().merge_with(c()));
    assert_eq!(entries(&left), entries(&right));
    assert_eq!(entries(&a().merge_with(a())), entries(&a()));
}

#[test]
fn prices_of_calls() {
    let table = HashMap::from([(64, 8)]);
    assert_eq!(syscall_cycles_for(64, 500, &table), 8);
    assert_eq!(syscall_cycles_for(65, 500, &table), 500);
}

#[test]
fn scores_on_the_command_line() {
    assert_eq!(parse_syscall_score("64=8"), Ok(("64".to_string(), 8)));
    assert_eq!(parse_syscall_score("0x40=0x10"), Ok(("0x40".to_string(), 16)));
    assert_eq!(
        parse_syscall_score("64"),
        Err("invalid syscall score '64': expected CODE=CYCLES".to_string())
    );
    assert_eq!(
        parse_syscall_score("64=8=9"),
        Err("invalid syscall score '64=8=9': invalid digit found in string".to_string())
    );
    let scores = vec!["64=8".to_string(), "93=2".to_string(), "64=9".to_string()];
    let config = config_from_scores(Some(1), &scores).unwrap();
    assert_eq!(config.default_syscall_cycles, Some(1));
    let config = config.resolve().unwrap();
    assert_eq!(config.syscall_cycles, HashMap::from([(64, 9), (93, 2)]));
    assert!(config_from_scores(None, &vec!["x".to_string()]).is_err());
}

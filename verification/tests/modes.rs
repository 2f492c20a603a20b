use supaa::modes::{ActivateOptions, Mode};

const ALL: [Mode; 3] = [Mode::Normal, Mode::Supaa, Mode::SupaaPlus];

#[test]
fn modes_are_known_by_their_names() {
    assert_eq!(Mode::Normal.as_str(), "Normal");
    assert_eq!(Mode::Supaa.as_str(), "Supaa");
    assert_eq!(Mode::SupaaPlus.as_str(), "Supaa++");
    for mode in ALL {
        assert_eq!(Mode::from_str(mode.as_str()), Some(mode));
    }
}

#[test]
fn other_spellings_are_accepted() {
    for s in ["supaa++", "SUPAA++", "supaa_plus", "supaaplus", "SupaaPlus"] {
        assert_eq!(Mode::from_str(s), Some(Mode::SupaaPlus), "{s}");
    }
    assert_eq!(Mode::from_str("NORMAL"), Some(Mode::Normal));
    assert_eq!(Mode::from_str("sUpAa"), Some(Mode::Supaa));
}

#[test]
fn other_names_are_refused() {
    for s in ["", "priority", "supaa+", "supaa ", " normal", "supaa+++", "ſupaa"] {
        assert_eq!(Mode::from_str(s), None, "{s:?}");
    }
}

#[test]
fn no_other_letter_lowers_into_a_name() {
    let names = ["normal", "supaa", "supaa++", "supaa_plus", "supaaplus"];
    for code in 0x80..=0x10ffffu32 {
        if let Some(c) = char::from_u32(code) {
            for low in c.to_lowercase() {
                assert!(!names.iter().any(|name| name.contains(low)), "{code:x}");
            }
        }
    }
}

#[test]
fn weights_are_those_of_the_table() {
    let cpu: Vec<(u64, u64)> = ALL.iter().map(|m| (m.focus_cpu_weight(), m.bg_cpu_weight())).collect();
    let io: Vec<(u64, u64)> = ALL.iter().map(|m| (m.focus_io_weight(), m.bg_io_weight())).collect();
    assert_eq!(cpu, vec![(100, 100), (800, 20), (10000, 1)]);
    assert_eq!(io, cpu);
    for mode in ALL {
        for weight in [
            mode.focus_cpu_weight(),
            mode.bg_cpu_weight(),
            mode.focus_io_weight(),
            mode.bg_io_weight(),
        ] {
            assert!((1..=10000).contains(&weight));
        }
    }
}

#[test]
fn memory_is_limited_outside_normal_only() {
    assert_eq!(Mode::Normal.bg_memory_high_percent(), None);
    assert_eq!(Mode::Supaa.bg_memory_high_percent(), Some(75));
    assert_eq!(Mode::SupaaPlus.bg_memory_high_percent(), Some(50));
}

#[test]
fn only_supaa_plus_freezes_locks_and_asks() {
    for mode in ALL {
        let extreme = mode == Mode::SupaaPlus;
        assert_eq!(mode.should_freeze_background(), extreme);
        assert_eq!(mode.should_lock_workspace(), extreme);
        assert_eq!(mode.requires_quit_confirmation(), extreme);
    }
}

#[test]
fn default_options() {
    let options = ActivateOptions::default();
    assert!(!options.lock_workspace);
    assert!(!options.freeze_background);
}

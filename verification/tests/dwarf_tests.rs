use rauk::dwarf::{
    get_replay_addresses, get_resources_from_subroutines, get_shortest_range_subprogram,
    get_shortest_range_subroutine, get_subprograms, get_subprograms_address_in_range,
    get_subprograms_in_range, get_subprograms_with_name, get_subroutines,
    get_subroutines_address_in_range, get_subroutines_in_range, get_vcell_from_subroutines,
    DebugAttr, DebugEntry, DebugTag, DwarfError, Subprogram, Subroutine,
};

fn sp(name: &str, low: u64, high: u64) -> Subprogram {
    Subprogram {
        name: name.to_string(),
        linkage_name: String::new(),
        low_pc: low,
        high_pc: high,
    }
}

fn sub(name: &str, ranges: Vec<(u64, u64)>) -> Subroutine {
    Subroutine {
        name: name.to_string(),
        ranges,
    }
}

#[test]
fn address_range_queries_filter_and_pick_the_shortest() {
    let sps = vec![sp("outer", 0, 100), sp("inner", 40, 60), sp("other", 200, 300)];
    let hits = get_subprograms_address_in_range(&sps, 50);
    assert_eq!(hits.len(), 2);
    assert_eq!(hits[0].name, "outer");
    assert_eq!(hits[1].name, "inner");
    let best = get_shortest_range_subprogram(&hits).unwrap();
    assert_eq!(best.name, "inner");
    assert_eq!(get_subprograms_in_range(&sps, 250).len(), 1);
    assert!(get_shortest_range_subprogram(&Vec::new()).is_none());
}

#[test]
fn subroutine_queries_reduce_to_the_matching_range() {
    let subs = vec![
        sub("a", vec![(0, 10), (100, 140)]),
        sub("b", vec![(120, 130)]),
        sub("c", vec![(500, 600)]),
    ];
    let hits = get_subroutines_address_in_range(&subs, 125);
    assert_eq!(hits.len(), 2);
    assert_eq!(hits[0].name, "a");
    assert_eq!(hits[0].ranges, vec![(100, 140)]);
    assert_eq!(hits[1].name, "b");
    let best = get_shortest_range_subroutine(&hits).unwrap().unwrap();
    assert_eq!(best.name, "b");

    let within = get_subroutines_in_range(&subs, 100, 150);
    assert_eq!(within.len(), 1);
    assert_eq!(within[0].name, "b");
}

#[test]
fn resource_locks_are_renamed_to_their_resource() {
    let subs = vec![
        sub("<impl rtic_core::Mutex for SHARED>::lock", vec![(0, 10)]),
        sub("plain_function", vec![(20, 30)]),
    ];
    let resources = get_resources_from_subroutines(&subs);
    assert_eq!(resources.len(), 1);
    assert_eq!(resources[0].name, "SHARED");
    assert_eq!(resources[0].ranges, vec![(0, 10)]);
}

#[test]
fn vcell_accessors_are_recognized() {
    let subs = vec![
        sub("vcell::VolatileCell<u32>::get", vec![(0, 10)]),
        sub("vcell::VolatileCell<u32>::as_ptr", vec![(20, 30)]),
        sub("vcell::VolatileCell<u32>::set", vec![(40, 50)]),
        sub("core::ptr::read", vec![(60, 70)]),
    ];
    let vcells = get_vcell_from_subroutines(&subs);
    assert_eq!(vcells.len(), 2);
    assert_eq!(vcells[0].name, "vcell::VolatileCell<u32>::get");
    assert_eq!(vcells[1].name, "vcell::VolatileCell<u32>::as_ptr");
}

#[test]
fn subprograms_are_found_by_name_fragment() {
    let sps = vec![sp("app::task_one", 0, 10), sp("app::helper", 20, 30)];
    let found = get_subprograms_with_name(&sps, "task");
    assert_eq!(found.len(), 1);
    assert_eq!(found[0].name, "app::task_one");
}

#[test]
fn debug_entries_fold_into_the_index() {
    let entries = vec![
        DebugEntry {
            tag: DebugTag::Variable,
            attrs: vec![
                DebugAttr::Name("input_0".to_string()),
                DebugAttr::LocAddress(0x2000_0000),
            ],
        },
        DebugEntry {
            tag: DebugTag::Variable,
            attrs: vec![
                DebugAttr::Name("ext".to_string()),
                DebugAttr::External,
                DebugAttr::LocAddress(0x2000_0010),
            ],
        },
        DebugEntry {
            tag: DebugTag::Variable,
            attrs: vec![
                DebugAttr::Name("low_value".to_string()),
                DebugAttr::LocValue(0x100),
            ],
        },
        DebugEntry {
            tag: DebugTag::Subprogram,
            attrs: vec![
                DebugAttr::Name("task_one".to_string()),
                DebugAttr::LowPc(0x8000_0000),
                DebugAttr::HighPcOffset(0x40),
            ],
        },
        DebugEntry {
            tag: DebugTag::Subprogram,
            attrs: vec![
                DebugAttr::Name("__reserved".to_string()),
                DebugAttr::LowPc(0x8000_0100),
                DebugAttr::HighPcOffset(0x40),
            ],
        },
        DebugEntry {
            tag: DebugTag::InlinedSubroutine,
            attrs: vec![
                DebugAttr::Ranges(vec![(0x10, 0x20)]),
                DebugAttr::LowPc(0x30),
                DebugAttr::HighPcOffset(0x8),
            ],
        },
    ];

    let locations = get_replay_addresses(&entries);
    assert_eq!(
        locations.get(&"input_0".to_string()),
        Some(Some(0x2000_0000))
    );
    // External variables and non-RAM plain values are not recorded.
    assert_eq!(locations.get(&"ext".to_string()), None);
    assert_eq!(locations.get(&"low_value".to_string()), None);

    let sps = get_subprograms(&entries);
    assert_eq!(sps.len(), 1);
    assert_eq!(sps[0].name, "task_one");
    assert_eq!(sps[0].low_pc, 0x8000_0000);
    assert_eq!(sps[0].high_pc, 0x8000_0040);

    // The inlined subroutine has no abstract-origin name, so it is dropped.
    let subs = get_subroutines(&entries);
    assert_eq!(subs.len(), 0);
}

#[test]
fn plain_location_values_in_ram_are_kept() {
    let entries = vec![DebugEntry {
        tag: DebugTag::Variable,
        attrs: vec![
            DebugAttr::Name("in_ram".to_string()),
            DebugAttr::LocValue(0x2000_0400),
        ],
    }];
    let locations = get_replay_addresses(&entries);
    assert_eq!(
        locations.get(&"in_ram".to_string()),
        Some(Some(0x2000_0400))
    );
}

#[test]
fn subroutine_names_come_demangled_from_the_abstract_origin() {
    let entries = vec![DebugEntry {
        tag: DebugTag::InlinedSubroutine,
        attrs: vec![
            DebugAttr::AbstractOriginLinkage("_ZN3foo3bar17h0123456789abcdefE".to_string()),
            DebugAttr::LowPc(0x100),
            DebugAttr::HighPcOffset(0x10),
        ],
    }];
    let subs = get_subroutines(&entries);
    assert_eq!(subs.len(), 1);
    // The stored name is the demangled form, not the raw symbol.
    assert_eq!(subs[0].name, "foo::bar::h0123456789abcdef");
    assert_eq!(subs[0].ranges, vec![(0x100, 0x110)]);
}

#[test]
fn subprogram_linkage_names_come_demangled() {
    let entries = vec![DebugEntry {
        tag: DebugTag::Subprogram,
        attrs: vec![
            DebugAttr::Name("bar".to_string()),
            DebugAttr::LinkageName("_ZN3foo3bar17h0123456789abcdefE".to_string()),
            DebugAttr::LowPc(0x100),
            DebugAttr::HighPcOffset(0x10),
        ],
    }];
    let sps = get_subprograms(&entries);
    assert_eq!(sps.len(), 1);
    assert_eq!(sps[0].linkage_name, "foo::bar::h0123456789abcdef");
}

#[test]
fn a_subroutine_without_ranges_is_a_query_error() {
    let subs = vec![sub("no_ranges", vec![])];
    assert_eq!(
        get_shortest_range_subroutine(&subs),
        Err(DwarfError::MissingRanges)
    );
}

use dupes::analyze::{analyze, AnalysisError};
use dupes::groups::DemangleMode;
use dupes::keys::KeyStrategy;
use dupes::model::{SectionRec, SymbolRec};

fn code_symbol(name: &str, size: u64, address: u64, section: Option<usize>) -> SymbolRec {
    SymbolRec {
        name: Some(name.to_string()),
        is_code: true,
        size,
        address,
        section,
    }
}

/// A section at 0x1000 whose data holds two 16-byte functions, one at
/// 0x1000 and one at 0x2000. Each starts with `call 0x3000` (rel32, so the
/// encoded displacement differs between the two addresses) followed by nops.
fn relocated_call_pair() -> (Vec<SectionRec>, Vec<SymbolRec>) {
    let mut data = vec![0u8; 0x1010];
    // call rel32 to 0x3000 from 0x1000: displacement 0x3000 - 0x1005 = 0x1ffb
    data[0x0000..0x0005].copy_from_slice(&[0xe8, 0xfb, 0x1f, 0x00, 0x00]);
    for b in &mut data[0x0005..0x0010] {
        *b = 0x90;
    }
    // call rel32 to 0x3000 from 0x2000: displacement 0x3000 - 0x2005 = 0x0ffb
    data[0x1000..0x1005].copy_from_slice(&[0xe8, 0xfb, 0x0f, 0x00, 0x00]);
    for b in &mut data[0x1005..0x1010] {
        *b = 0x90;
    }
    let sections = vec![SectionRec {
        is_text: true,
        address: 0x1000,
        size: 0x1010,
        data,
    }];
    let symbols = vec![
        code_symbol("first", 16, 0x1000, Some(0)),
        code_symbol("second", 16, 0x2000, Some(0)),
    ];
    (sections, symbols)
}

#[test]
fn relative_call_pair_collapses_into_one_group() {
    let (sections, symbols) = relocated_call_pair();
    let analysis = analyze(
        &sections,
        &symbols,
        KeyStrategy::Instructions,
        DemangleMode::Off,
    )
    .unwrap();
    assert_eq!(analysis.groups.len(), 1);
    assert_eq!(analysis.groups[0].count, 2);
    assert_eq!(analysis.groups[0].function_size, 16);
    assert_eq!(analysis.groups[0].excess_bytes(), 16);
    assert_eq!(analysis.summary.excess_bytes, 16);
    assert_eq!(analysis.summary.duplicated_functions, 1);
    assert_eq!(analysis.summary.excess_instances, 1);
    assert_eq!(analysis.summary.text_size, 0x1010);
}

#[test]
fn distinct_bodies_stay_in_distinct_groups() {
    let mut data = vec![0u8; 0x1001];
    data[0x0000] = 0x90; // nop
    data[0x1000] = 0xc3; // ret
    let sections = vec![SectionRec {
        is_text: true,
        address: 0x1000,
        size: 0x1001,
        data,
    }];
    let symbols = vec![
        code_symbol("a", 1, 0x1000, Some(0)),
        code_symbol("b", 1, 0x2000, Some(0)),
    ];
    let analysis = analyze(
        &sections,
        &symbols,
        KeyStrategy::Instructions,
        DemangleMode::Off,
    )
    .unwrap();
    assert_eq!(analysis.groups.len(), 2);
    assert_eq!(analysis.summary.excess_bytes, 0);
    assert_eq!(analysis.summary.duplicated_functions, 0);
    assert_eq!(analysis.summary.excess_instances, 0);
}

#[test]
fn name_and_size_keeps_hash_distinct_groups() {
    let symbols = vec![
        code_symbol("_ZN3foo3bar17h1111111111111111E", 32, 0x10, None),
        code_symbol("_ZN3foo3bar17h2222222222222222E", 32, 0x20, None),
    ];
    let sections: Vec<SectionRec> = Vec::new();
    let analysis = analyze(
        &sections,
        &symbols,
        KeyStrategy::NameAndSize,
        DemangleMode::Off,
    )
    .unwrap();
    assert_eq!(analysis.groups.len(), 2);
    assert_eq!(analysis.summary.duplicated_functions, 0);
}

#[test]
fn name_without_hash_collapses_instantiations() {
    let symbols = vec![
        code_symbol("_ZN3foo3bar17h1111111111111111E", 32, 0x10, None),
        code_symbol("_ZN3foo3bar17h2222222222222222E", 32, 0x20, None),
    ];
    let sections: Vec<SectionRec> = Vec::new();
    let analysis = analyze(
        &sections,
        &symbols,
        KeyStrategy::NameWithoutRustHash,
        DemangleMode::NoHash,
    )
    .unwrap();
    assert_eq!(analysis.groups.len(), 1);
    assert_eq!(analysis.groups[0].count, 2);
    assert_eq!(analysis.groups[0].excess_bytes(), 32);
    assert_eq!(analysis.groups[0].names.len(), 1);
    assert_eq!(analysis.groups[0].names[0].0, "foo::bar");
    assert_eq!(analysis.groups[0].names[0].1, 2);
}

#[test]
fn demangled_display_names_are_reported() {
    let symbols = vec![code_symbol("_ZN3foo3bar17h1111111111111111E", 8, 0x10, None)];
    let sections: Vec<SectionRec> = Vec::new();
    let analysis = analyze(
        &sections,
        &symbols,
        KeyStrategy::NameAndSize,
        DemangleMode::Full,
    )
    .unwrap();
    assert_eq!(analysis.groups.len(), 1);
    assert_eq!(analysis.groups[0].names[0].0, "foo::bar::h1111111111111111");
    assert_eq!(analysis.groups[0].names[0].1, 1);
}

#[test]
fn raw_display_names_are_reported_without_demangling() {
    let symbols = vec![code_symbol("_ZN3foo3bar17h1111111111111111E", 8, 0x10, None)];
    let sections: Vec<SectionRec> = Vec::new();
    let analysis = analyze(
        &sections,
        &symbols,
        KeyStrategy::NameAndSize,
        DemangleMode::Off,
    )
    .unwrap();
    assert_eq!(
        analysis.groups[0].names[0].0,
        "_ZN3foo3bar17h1111111111111111E"
    );
}

#[test]
fn undemangleable_name_is_skipped() {
    let symbols = vec![code_symbol("plain_name", 8, 0x10, None)];
    let sections: Vec<SectionRec> = Vec::new();
    let err = analyze(
        &sections,
        &symbols,
        KeyStrategy::NameAndSize,
        DemangleMode::Off,
    )
    .unwrap_err();
    assert_eq!(err, AnalysisError::NoFunctionsConsidered);
}

#[test]
fn empty_symbol_table_is_its_own_failure() {
    let sections: Vec<SectionRec> = Vec::new();
    let symbols: Vec<SymbolRec> = Vec::new();
    let err = analyze(
        &sections,
        &symbols,
        KeyStrategy::Instructions,
        DemangleMode::Off,
    )
    .unwrap_err();
    assert_eq!(err, AnalysisError::NoSymbolTable);
}

#[test]
fn zero_sized_symbols_are_never_considered() {
    let mut data = vec![0u8; 16];
    data[0] = 0xc3;
    let sections = vec![SectionRec {
        is_text: true,
        address: 0x1000,
        size: 16,
        data,
    }];
    let symbols = vec![code_symbol("zero", 0, 0x1000, Some(0))];
    let err = analyze(
        &sections,
        &symbols,
        KeyStrategy::Instructions,
        DemangleMode::Off,
    )
    .unwrap_err();
    assert_eq!(err, AnalysisError::NoFunctionsConsidered);
}

#[test]
fn data_symbols_alone_leave_nothing_considered() {
    let symbols = vec![SymbolRec {
        name: Some("a_global".to_string()),
        is_code: false,
        size: 8,
        address: 0x10,
        section: Some(0),
    }];
    let sections = vec![SectionRec {
        is_text: false,
        address: 0x10,
        size: 8,
        data: vec![0u8; 8],
    }];
    let err = analyze(
        &sections,
        &symbols,
        KeyStrategy::Instructions,
        DemangleMode::Off,
    )
    .unwrap_err();
    assert_eq!(err, AnalysisError::NoFunctionsConsidered);
}

#[test]
fn analysis_is_deterministic_across_runs() {
    let (sections, symbols) = relocated_call_pair();
    let first = analyze(
        &sections,
        &symbols,
        KeyStrategy::Instructions,
        DemangleMode::Off,
    )
    .unwrap();
    let second = analyze(
        &sections,
        &symbols,
        KeyStrategy::Instructions,
        DemangleMode::Off,
    )
    .unwrap();
    assert_eq!(first.summary, second.summary);
    assert_eq!(first.groups, second.groups);
}

#[test]
fn truncated_function_bytes_skip_the_symbol() {
    // The symbol claims 32 bytes but the section holds only 16 past its
    // address: its bytes are not fully contained, so it is skipped.
    let sections = vec![SectionRec {
        is_text: true,
        address: 0x1000,
        size: 16,
        data: vec![0x90u8; 16],
    }];
    let symbols = vec![
        code_symbol("truncated", 32, 0x1000, Some(0)),
        code_symbol("whole", 16, 0x1000, Some(0)),
    ];
    let analysis = analyze(
        &sections,
        &symbols,
        KeyStrategy::Instructions,
        DemangleMode::Off,
    )
    .unwrap();
    assert_eq!(analysis.groups.len(), 1);
    assert_eq!(analysis.groups[0].count, 1);
    assert_eq!(analysis.groups[0].function_size, 16);
}

#[test]
fn undecodable_bytes_skip_the_symbol() {
    // 0xff 0xff is not a complete valid instruction; strict decoding fails
    // and the symbol is excluded rather than aborting the run.
    let mut data = vec![0x90u8; 4];
    data[2] = 0xff;
    data[3] = 0xff;
    let sections = vec![SectionRec {
        is_text: true,
        address: 0x1000,
        size: 4,
        data,
    }];
    let symbols = vec![
        code_symbol("good", 2, 0x1000, Some(0)),
        code_symbol("bad", 2, 0x1002, Some(0)),
    ];
    let analysis = analyze(
        &sections,
        &symbols,
        KeyStrategy::Instructions,
        DemangleMode::Off,
    )
    .unwrap();
    assert_eq!(analysis.groups.len(), 1);
    assert_eq!(analysis.groups[0].count, 1);
}

#[test]
fn total_excess_covers_groups_not_printed() {
    // Four symbols: three copies of one 2-byte body, one singleton body.
    // The singleton contributes zero excess; the total covers all groups.
    let mut data = vec![0u8; 0x31];
    data[0x00] = 0x90;
    data[0x01] = 0x90;
    data[0x10] = 0x90;
    data[0x11] = 0x90;
    data[0x20] = 0x90;
    data[0x21] = 0x90;
    data[0x30] = 0xc3;
    let sections = vec![SectionRec {
        is_text: true,
        address: 0x1000,
        size: 0x31,
        data,
    }];
    let symbols = vec![
        code_symbol("n1", 2, 0x1000, Some(0)),
        code_symbol("n2", 2, 0x1010, Some(0)),
        code_symbol("n3", 2, 0x1020, Some(0)),
        code_symbol("r1", 1, 0x1030, Some(0)),
    ];
    let analysis = analyze(
        &sections,
        &symbols,
        KeyStrategy::Instructions,
        DemangleMode::Off,
    )
    .unwrap();
    assert_eq!(analysis.groups.len(), 2);
    assert_eq!(analysis.summary.excess_bytes, 4);
    assert_eq!(analysis.summary.duplicated_functions, 1);
    assert_eq!(analysis.summary.excess_instances, 2);
}

#[test]
fn nameless_symbol_is_skipped_under_name_keying() {
    let symbols = vec![SymbolRec {
        name: None,
        is_code: true,
        size: 8,
        address: 0x10,
        section: None,
    }];
    let sections: Vec<SectionRec> = Vec::new();
    let err = analyze(
        &sections,
        &symbols,
        KeyStrategy::NameAndSize,
        DemangleMode::Off,
    )
    .unwrap_err();
    assert_eq!(err, AnalysisError::NoFunctionsConsidered);
}

#[test]
fn out_of_range_section_index_skips_the_symbol() {
    let sections = vec![SectionRec {
        is_text: true,
        address: 0x1000,
        size: 1,
        data: vec![0x90],
    }];
    let symbols = vec![
        code_symbol("stray", 1, 0x1000, Some(7)),
        code_symbol("fine", 1, 0x1000, Some(0)),
    ];
    let analysis = analyze(
        &sections,
        &symbols,
        KeyStrategy::Instructions,
        DemangleMode::Off,
    )
    .unwrap();
    assert_eq!(analysis.groups.len(), 1);
    assert_eq!(analysis.groups[0].count, 1);
}

use line_endings::analysis::analyze_file;
use line_endings::bom::detect_bom;
use line_endings::scan::count_line_endings;
use line_endings::types::{BomType, ConfigSettings};

/// Helper function to create test config with default settings
fn create_test_config() -> ConfigSettings {
    ConfigSettings {
        case_sensitive: false,
        set_linux: false,
        set_windows: false,
        check_bom: true,
        remove_bom: false,
        recursive: true,
        delete_backups: false,
        supplied_paths: vec![],
        folder: None,
    }
}

/// The bytes of a small file that starts with a UTF-8 BOM and uses CRLF.
fn has_bom_content() -> Vec<u8> {
    let mut content = vec![0xEFu8, 0xBB, 0xBF];
    content.extend_from_slice(b"This file has a BOM.\r\nSecond line.\r\n");
    content
}

/// The bytes of a small file that uses Windows (CRLF) line endings.
fn windows_content() -> Vec<u8> {
    b"Line 1\r\nLine 2\r\nLine 3\r\n".to_vec()
}

/// The bytes of a small file that uses Linux (LF) line endings.
fn linux_content() -> Vec<u8> {
    b"Line 1\nLine 2\nLine 3\n".to_vec()
}

/// The bytes of a small file that mixes CRLF and LF line endings.
fn mixed_content() -> Vec<u8> {
    b"Line 1\r\nLine 2\nLine 3\r\nLine 4\n".to_vec()
}

#[test]
fn test_bom_detection() {
    // Test UTF-8 BOM detection
    let bom_type = detect_bom(&has_bom_content());
    assert_eq!(bom_type, BomType::Utf8);

    // Test file without BOM
    let bom_type = detect_bom(&linux_content());
    assert_eq!(bom_type, BomType::Absent);
}

#[test]
fn test_line_ending_analysis() {
    let config = create_test_config();

    // Test Windows line endings (CRLF)
    let analysis = analyze_file(String::from("test_windows.txt"), &windows_content(), &config);
    assert!(analysis.error.is_none(), "Analysis should not have errors");
    assert!(
        analysis.is_crlf_only(),
        "Windows file should have only CRLF"
    );
    assert!(analysis.crlf_count > 0, "Should have CRLF line endings");
    assert_eq!(analysis.lf_count, 0, "Should not have LF line endings");

    // Test Linux line endings (LF)
    let analysis = analyze_file(String::from("test_linux.txt"), &linux_content(), &config);
    assert!(analysis.error.is_none(), "Analysis should not have errors");
    assert!(analysis.is_lf_only(), "Linux file should have only LF");
    assert!(analysis.lf_count > 0, "Should have LF line endings");
    assert_eq!(analysis.crlf_count, 0, "Should not have CRLF line endings");

    // Test mixed line endings
    let analysis = analyze_file(String::from("test_lines.txt"), &mixed_content(), &config);
    assert!(analysis.error.is_none(), "Analysis should not have errors");
    assert!(
        analysis.has_mixed_line_endings(),
        "File should have mixed line endings"
    );
    assert!(analysis.lf_count > 0, "Should have LF line endings");
    assert!(analysis.crlf_count > 0, "Should have CRLF line endings");
}

#[test]
fn test_bom_analysis() {
    let config = create_test_config();

    // Test file with BOM
    let analysis = analyze_file(String::from("has_bom.txt"), &has_bom_content(), &config);
    assert!(analysis.error.is_none(), "Analysis should not have errors");
    assert!(analysis.has_bom(), "File should have BOM");
    assert_eq!(
        analysis.bom_type,
        Some(BomType::Utf8),
        "Should detect UTF-8 BOM"
    );

    // Test file without BOM
    let analysis = analyze_file(String::from("test_linux.txt"), &linux_content(), &config);
    assert!(analysis.error.is_none(), "Analysis should not have errors");
    assert!(!analysis.has_bom(), "File should not have BOM");
}

#[test]
fn test_bom_check_disabled() {
    let mut config = create_test_config();
    config.check_bom = false; // Disable BOM checking

    let analysis = analyze_file(String::from("has_bom.txt"), &has_bom_content(), &config);
    assert!(analysis.error.is_none(), "Analysis should not have errors");
    assert_eq!(
        analysis.bom_type, None,
        "BOM should not be checked when disabled"
    );
}

#[test]
fn test_subdirectory_files() {
    let config = create_test_config();

    // Test BOM file in subdirectory
    let analysis = analyze_file(
        String::from("sub_folder/has_bom.txt"),
        &has_bom_content(),
        &config,
    );
    assert!(analysis.error.is_none(), "Analysis should not have errors");
    assert!(analysis.has_bom(), "Subdirectory BOM file should have BOM");
    assert_eq!(
        analysis.bom_type,
        Some(BomType::Utf8),
        "Should detect UTF-8 BOM"
    );

    // Test mixed line endings file in subdirectory
    let analysis = analyze_file(
        String::from("sub_folder/test_lines.txt"),
        &mixed_content(),
        &config,
    );
    assert!(analysis.error.is_none(), "Analysis should not have errors");
    assert!(
        analysis.has_mixed_line_endings(),
        "Subdirectory file should have mixed line endings"
    );
}

#[test]
fn test_count_line_endings_directly() {
    // Test direct line ending counting without config
    let (lf_count, crlf_count) = count_line_endings(&windows_content());
    assert_eq!(lf_count, 0, "Windows file should have no LF");
    assert!(crlf_count > 0, "Windows file should have CRLF");

    let (lf_count, crlf_count) = count_line_endings(&linux_content());
    assert!(lf_count > 0, "Linux file should have LF");
    assert_eq!(crlf_count, 0, "Linux file should have no CRLF");
}

#[test]
fn test_create_custom_test_files() {
    let config = create_test_config();

    // A file with only CRLF
    let crlf_content = b"Line 1\r\nLine 2\r\nLine 3\r\n";
    let analysis = analyze_file(String::from("custom_crlf.txt"), crlf_content, &config);
    assert!(
        analysis.is_crlf_only(),
        "Custom CRLF file should have only CRLF"
    );
    assert_eq!(
        analysis.crlf_count, 3,
        "Should have exactly 3 CRLF line endings"
    );

    // A file with only LF
    let lf_content = b"Line 1\nLine 2\nLine 3\n";
    let analysis = analyze_file(String::from("custom_lf.txt"), lf_content, &config);
    assert!(analysis.is_lf_only(), "Custom LF file should have only LF");
    assert_eq!(
        analysis.lf_count, 3,
        "Should have exactly 3 LF line endings"
    );

    // A file with mixed line endings
    let mixed = b"Line 1\r\nLine 2\nLine 3\r\nLine 4\n";
    let analysis = analyze_file(String::from("custom_mixed.txt"), mixed, &config);
    assert!(
        analysis.has_mixed_line_endings(),
        "Custom mixed file should have mixed line endings"
    );
    assert_eq!(
        analysis.crlf_count, 2,
        "Should have exactly 2 CRLF line endings"
    );
    assert_eq!(
        analysis.lf_count, 2,
        "Should have exactly 2 LF line endings"
    );
}

/// Test BOM output when the BOM check is requested
#[test]
fn test_bom_output_when_requested() {
    let config = create_test_config(); // This has check_bom = true

    // Test file with BOM - should show BOM type
    let analysis = analyze_file(String::from("has_bom.txt"), &has_bom_content(), &config);
    assert!(
        analysis.bom_type.is_some(),
        "BOM type should be set when check_bom is true"
    );
    assert_eq!(
        analysis.bom_type,
        Some(BomType::Utf8),
        "Should detect UTF-8 BOM"
    );

    // Test file without BOM - should report no BOM when requested
    let analysis = analyze_file(String::from("test_linux.txt"), &linux_content(), &config);
    assert!(
        analysis.bom_type.is_some(),
        "BOM type should be set when check_bom is true"
    );
    assert_eq!(
        analysis.bom_type,
        Some(BomType::Absent),
        "Should detect no BOM"
    );
}

/// Test BOM output when the BOM check is NOT requested
#[test]
fn test_bom_output_when_not_requested() {
    let mut config = create_test_config();
    config.check_bom = false; // Disable BOM checking

    // Test file with BOM - should NOT carry BOM info
    let analysis = analyze_file(String::from("has_bom.txt"), &has_bom_content(), &config);
    assert!(
        analysis.bom_type.is_none(),
        "BOM type should be None when check_bom is false"
    );

    // Test file without BOM - should NOT carry BOM info
    let analysis = analyze_file(String::from("test_linux.txt"), &linux_content(), &config);
    assert!(
        analysis.bom_type.is_none(),
        "BOM type should be None when check_bom is false"
    );
}

/// Test that BOM status shows correct format strings
#[test]
fn test_bom_status_format_strings() {
    // Test BOM type string formats match expected output
    assert_eq!(
        BomType::Absent.to_string(),
        "none",
        "BomType::Absent should display as 'none'"
    );
    assert_eq!(
        BomType::Utf8.to_string(),
        "UTF-8",
        "BomType::Utf8 should display as 'UTF-8'"
    );
    assert_eq!(
        BomType::Utf16Le.to_string(),
        "UTF-16 LE",
        "BomType::Utf16Le should display as 'UTF-16 LE'"
    );
    assert_eq!(
        BomType::Utf16Be.to_string(),
        "UTF-16 BE",
        "BomType::Utf16Be should display as 'UTF-16 BE'"
    );
    assert_eq!(
        BomType::Utf32Le.to_string(),
        "UTF-32 LE",
        "BomType::Utf32Le should display as 'UTF-32 LE'"
    );
    assert_eq!(
        BomType::Utf32Be.to_string(),
        "UTF-32 BE",
        "BomType::Utf32Be should display as 'UTF-32 BE'"
    );

    // Test actual BOM detection
    let bom_type = detect_bom(&has_bom_content());
    assert_eq!(bom_type, BomType::Utf8, "Should detect UTF-8 BOM");

    let bom_type = detect_bom(&linux_content());
    assert_eq!(bom_type, BomType::Absent, "Should detect no BOM");
}

#[test]
fn test_empty_file() {
    let config = create_test_config();
    let analysis = analyze_file(String::from("empty.txt"), b"", &config);

    assert!(analysis.error.is_none(), "Empty file should not error");
    assert_eq!(analysis.lf_count, 0, "Empty file should have no LF");
    assert_eq!(analysis.crlf_count, 0, "Empty file should have no CRLF");
}

#[test]
fn test_file_with_only_cr() {
    // File content with only CR (old Mac style)
    let content = b"Line 1\rLine 2\rLine 3\r";

    let config = create_test_config();
    let analysis = analyze_file(String::from("cr_only.txt"), content, &config);

    assert!(analysis.error.is_none(), "CR file should not error");
    assert_eq!(analysis.lf_count, 0, "Should have no LF");
    assert_eq!(analysis.crlf_count, 0, "Should have no CRLF");
}

#[test]
fn test_file_ending_with_cr_no_lf() {
    // File content ending with CR but no LF
    let content = b"Line 1\nLine 2\r";

    let config = create_test_config();
    let analysis = analyze_file(String::from("cr_ending.txt"), content, &config);

    assert!(analysis.error.is_none(), "Should not error");
    assert_eq!(analysis.lf_count, 1, "Should have 1 LF");
    assert_eq!(analysis.crlf_count, 0, "Should have no CRLF");
}

#[test]
fn test_large_file() {
    // Create content larger than one 4KB chunk - about 50KB
    let mut content = Vec::new();
    for i in 0..1000 {
        let line = format!("Line number {i} with some extra text to increase size\n");
        content.extend_from_slice(line.as_bytes());
    }

    let config = create_test_config();
    let analysis = analyze_file(String::from("large.txt"), &content, &config);

    assert!(analysis.error.is_none(), "Large file should not error");
    assert_eq!(analysis.lf_count, 1000, "Should have 1000 LF endings");
}

/// A file whose sample holds a null byte is skipped as binary, with the
/// distinct skip marker and zeroed counts.
#[test]
fn test_binary_file_skipped() {
    let content = b"text\x00more\nlines\n";
    let config = create_test_config();
    let analysis = analyze_file(String::from("binary.bin"), content, &config);

    assert_eq!(
        analysis.error.as_deref(),
        Some("Binary file detected, skipping")
    );
    assert_eq!(analysis.lf_count, 0);
    assert_eq!(analysis.crlf_count, 0);
    assert!(analysis.bom_type.is_none());
}

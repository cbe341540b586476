use pvm::commands::self_update::{
    current_version, is_update, latest_release_url, release_asset_url, remote_version, update_status,
    version_core, binary_from_entries, release_binary, ArchiveError, ArchiveStop, SelfUpdateError, UpdateStatus,
};

#[test]
fn version_core_drops_prefix_and_describe_extras() {
    assert_eq!(version_core("v2.0.1"), "2.0.1");
    assert_eq!(version_core("v2.0.1-2-gabc123 (dirty)"), "2.0.1");
    assert_eq!(version_core("  2.0.1 extra"), "2.0.1");
    assert_eq!(version_core("vv1.2.3"), "1.2.3");
    assert_eq!(version_core(""), "");
}

#[test]
fn current_version_falls_back_to_package_version() {
    assert_eq!(current_version("v2.0.1-3-gdead", "1.0.0"), Ok("2.0.1".to_string()));
    assert_eq!(current_version("unknown", "2.0.1"), Ok("2.0.1".to_string()));
    let e = current_version("unknown", "bad").unwrap_err();
    assert_eq!(e, SelfUpdateError::BadCurrent("unknown".to_string(), "unknown".to_string()));
    assert_eq!(e.message(), "Failed to parse current pvm version 'unknown' from 'unknown'");
}

#[test]
fn remote_tags_parse_without_v() {
    assert_eq!(remote_version("v2.1.0"), Ok("2.1.0".to_string()));
    let e = remote_version("latest").unwrap_err();
    assert_eq!(e.message(), "Failed to parse remote release tag 'latest'");
}

#[test]
fn update_needs_higher_precedence() {
    assert!(is_update("2.0.1", "2.1.0"));
    assert!(!is_update("2.1.0", "2.1.0"));
    assert!(!is_update("2.1.0", "2.0.9"));
    assert!(is_update("2.1.0-rc.1", "2.1.0"));
    assert!(is_update("2.9.0", "2.10.0"));
}

#[test]
fn release_addresses() {
    assert_eq!(
        latest_release_url(),
        "https://api.github.com/repos/WebProject-xyz/php-version-manager/releases/latest"
    );
    assert_eq!(
        release_asset_url("v2.1.0", "linux-x86_64"),
        "https://github.com/WebProject-xyz/php-version-manager/releases/download/v2.1.0/pvm-linux-x86_64.tar.gz"
    );
}

#[test]
fn update_status_compares_build_with_release() {
    assert_eq!(
        update_status("v2.0.1-2-gabc", "0.0.0", "v2.1.0"),
        Ok(UpdateStatus { current: "2.0.1".to_string(), remote: "2.1.0".to_string(), newer: true })
    );
    assert_eq!(
        update_status("2.1.0", "0.0.0", "2.1.0"),
        Ok(UpdateStatus { current: "2.1.0".to_string(), remote: "2.1.0".to_string(), newer: false })
    );
    assert_eq!(
        update_status("2.1.0", "0.0.0", "release"),
        Err(SelfUpdateError::BadTag("release".to_string()))
    );
}

fn tar_gz(entries: &[(&str, &[u8])]) -> Vec<u8> {
    let mut builder = tar::Builder::new(Vec::new());
    for (path, data) in entries {
        let mut header = tar::Header::new_gnu();
        header.set_size(data.len() as u64);
        header.set_mode(0o755);
        header.set_cksum();
        builder.append_data(&mut header, path, *data).unwrap();
    }
    let raw = builder.into_inner().unwrap();
    let mut enc = flate2::write::GzEncoder::new(Vec::new(), flate2::Compression::default());
    std::io::Write::write_all(&mut enc, &raw).unwrap();
    enc.finish().unwrap()
}

#[test]
fn release_archive_yields_the_pvm_binary() {
    let archive = tar_gz(&[("README.md", b"readme"), ("pvm-linux-x86_64/pvm", b"BINARY"), ("pvm", b"second")]);
    assert_eq!(release_binary(&archive), Ok(b"BINARY".to_vec()));
}

#[test]
fn release_archive_without_binary_or_unreadable() {
    let archive = tar_gz(&[("README.md", b"readme"), ("pvm.sha256", b"x")]);
    assert_eq!(release_binary(&archive), Err(ArchiveError::NoBinary));
    assert_eq!(release_binary(b"not an archive"), Err(ArchiveError::EntryUnreadable));
    assert_eq!(ArchiveError::NoBinary.message(), "Release archive did not contain a `pvm` binary");
    assert_eq!(ArchiveError::EntriesUnreadable.message(), "Failed to read archive entries");
    assert_eq!(ArchiveError::EntryUnreadable.message(), "Failed to read archive entry");
    assert_eq!(ArchiveError::InvalidPath.message(), "Invalid entry path");
    assert_eq!(ArchiveError::ExtractFailed.message(), "Failed to extract pvm binary from archive");
}

#[test]
fn binary_entry_is_found_by_file_name() {
    let entries = vec![
        ("bin/pvm/".to_string(), b"dir".to_vec()),
        ("./pvm".to_string(), b"yes".to_vec()),
    ];
    // A trailing slash still names `pvm`, as `Path::file_name` reads it.
    assert_eq!(binary_from_entries(&entries, ArchiveStop::End), Ok(b"dir".to_vec()));
    let entries = vec![("a/..".to_string(), b"no".to_vec()), ("./pvm".to_string(), b"yes".to_vec())];
    assert_eq!(binary_from_entries(&entries, ArchiveStop::End), Ok(b"yes".to_vec()));
    assert_eq!(binary_from_entries(&entries[..1], ArchiveStop::EntryFailed), Err(ArchiveError::EntryUnreadable));
}

#[test]
fn archive_errors_name_the_step_that_failed() {
    let entries = vec![("README.md".to_string(), b"readme".to_vec()), ("pvm".to_string(), Vec::new())];
    // The binary's own contents failed to read.
    assert_eq!(binary_from_entries(&entries, ArchiveStop::ContentFailed), Err(ArchiveError::ExtractFailed));
    // A later failure does not matter once the binary was read.
    assert_eq!(binary_from_entries(&entries, ArchiveStop::EntryFailed), Ok(Vec::new()));
    let before = &entries[..1];
    assert_eq!(binary_from_entries(before, ArchiveStop::ContentFailed), Err(ArchiveError::EntryUnreadable));
    assert_eq!(binary_from_entries(before, ArchiveStop::PathFailed), Err(ArchiveError::InvalidPath));
    assert_eq!(binary_from_entries(&[], ArchiveStop::EntriesFailed), Err(ArchiveError::EntriesUnreadable));
    assert_eq!(binary_from_entries(before, ArchiveStop::End), Err(ArchiveError::NoBinary));
}

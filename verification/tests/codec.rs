use updater::Distribution;
use updater::ExternalArtifact;
use updater::ExternalManifestShape;
use updater::ManifestDecodeError;
use updater::PlatformArtifact;
use updater::ReleaseRecord;
use updater::Timestamp;
use updater::UpdateFormat;
use updater::Version;
use updater::VersionCore;
use updater::manifest::decode;
use updater::manifest::encode;
use updater::manifest::format_to_string;
use updater::manifest::parse_format;
use updater::version::parse_u64;
use updater::version::parse_version;
use updater::version::render_version;
use updater::version::u64_to_string;
use updater::timestamp::render_timestamp;
use updater::timestamp::parse_rfc3339;

fn version3(major: u64, minor: u64, patch: u64) -> Version {
    Version { core: VersionCore { major, minor, patch }, pre: None }
}

fn single_record(url: &str, signature: &str, format: UpdateFormat) -> ReleaseRecord {
    ReleaseRecord {
        version: version3(1, 0, 0),
        notes: None,
        publication_time: None,
        distribution: Distribution::SinglePlatform(PlatformArtifact {
            url: url.to_string(),
            signature: signature.to_string(),
            format,
        }),
    }
}

fn empty_shape(name: &str) -> ExternalManifestShape {
    ExternalManifestShape {
        name: name.to_string(),
        notes: None,
        pub_date: None,
        platforms: None,
        url: None,
        signature: None,
        format: None,
    }
}

#[test]
fn decimal_rendering() {
    assert_eq!(u64_to_string(0), "0");
    assert_eq!(u64_to_string(7), "7");
    assert_eq!(u64_to_string(1203), "1203");
    assert_eq!(u64_to_string(u64::MAX), "18446744073709551615");
}

#[test]
fn decimal_parsing() {
    assert_eq!(parse_u64("0"), Some(0));
    assert_eq!(parse_u64("1203"), Some(1203));
    assert_eq!(parse_u64("18446744073709551615"), Some(u64::MAX));
    assert_eq!(parse_u64("18446744073709551616"), None);
    assert_eq!(parse_u64(""), None);
    assert_eq!(parse_u64("01"), None);
    assert_eq!(parse_u64("1a"), None);
}

#[test]
fn version_rendering_and_parsing() {
    let v = version3(1, 2, 3);
    assert_eq!(render_version(&v), "1.2.3");
    assert_eq!(parse_version("1.2.3"), Some(v));
    assert_eq!(parse_version("1.2"), None);
    assert_eq!(parse_version("1.2.3.4"), None);
    assert_eq!(parse_version("01.2.3"), None);
    assert_eq!(parse_version("a.b.c"), None);
    assert_eq!(parse_version(""), None);
}

#[test]
fn version_pre_release() {
    let v = Version {
        core: VersionCore { major: 1, minor: 0, patch: 0 },
        pre: Some("rc.1".to_string()),
    };
    assert_eq!(render_version(&v), "1.0.0-rc.1");
    assert_eq!(parse_version("1.0.0-rc.1"), Some(v));
    let with_hyphen = Version {
        core: VersionCore { major: 2, minor: 0, patch: 0 },
        pre: Some("beta-3".to_string()),
    };
    assert_eq!(render_version(&with_hyphen), "2.0.0-beta-3");
    assert_eq!(parse_version("2.0.0-beta-3"), Some(with_hyphen));
    assert_eq!(parse_version("1.0.0-"), None);
    assert_eq!(parse_version("1.0.0-a..b"), None);
    assert_eq!(parse_version("1.0.0-a."), None);
    assert_eq!(parse_version("1.0.0-.a"), None);
    assert_eq!(parse_version("1.0.0-rc 1"), None);
    assert_eq!(parse_version("-rc.1"), None);
}

#[test]
fn version_prefixing() {
    let record = single_record("https://example.com/a.pkg", "sig", UpdateFormat::ArchiveUpdate);
    let shape = encode(&record);
    assert_eq!(shape.name, "v1.0.0");

    let mut shape = empty_shape("v1.2.3");
    shape.url = Some("https://example.com/a.pkg".to_string());
    shape.signature = Some("sig".to_string());
    shape.format = Some("archive-update".to_string());
    let decoded = decode(&shape).unwrap();
    assert_eq!(decoded.version, version3(1, 2, 3));

    shape.name = "1.2.3".to_string();
    let decoded = decode(&shape).unwrap();
    assert_eq!(decoded.version, version3(1, 2, 3));

    shape.name = "V1.2.3".to_string();
    let decoded = decode(&shape).unwrap();
    assert_eq!(decoded.version, version3(1, 2, 3));

    shape.name = "v1.2.3-rc.1".to_string();
    let decoded = decode(&shape).unwrap();
    assert_eq!(
        decoded.version,
        Version { core: VersionCore { major: 1, minor: 2, patch: 3 }, pre: Some("rc.1".to_string()) }
    );
}

#[test]
fn format_tags() {
    assert_eq!(format_to_string(UpdateFormat::ArchiveUpdate), "archive-update");
    assert_eq!(format_to_string(UpdateFormat::RawInstaller), "raw-installer");
    assert_eq!(
        parse_format(&"archive-update".to_string()),
        Some(UpdateFormat::ArchiveUpdate)
    );
    assert_eq!(
        parse_format(&"raw-installer".to_string()),
        Some(UpdateFormat::RawInstaller)
    );
    assert_eq!(parse_format(&"zip".to_string()), None);
}

#[test]
fn timestamp_renders_rfc3339() {
    let ts = Timestamp {
        year: 2023,
        month: 5,
        day: 1,
        hour: 12,
        minute: 30,
        second: 45,
        nanosecond: 0,
        offset_seconds: 0,
    };
    assert_eq!(render_timestamp(&ts), "2023-05-01T12:30:45Z");
    let with_offset = Timestamp { offset_seconds: 3600, ..ts };
    assert_eq!(render_timestamp(&with_offset), "2023-05-01T12:30:45+01:00");
}

#[test]
fn timestamp_parses_rfc3339() {
    let ts = parse_rfc3339("2024-01-02T03:04:05Z").unwrap();
    assert_eq!(ts.year, 2024);
    assert_eq!(ts.month, 1);
    assert_eq!(ts.day, 2);
    assert_eq!(ts.hour, 3);
    assert_eq!(ts.minute, 4);
    assert_eq!(ts.second, 5);
    assert_eq!(ts.nanosecond, 0);
    assert_eq!(ts.offset_seconds, 0);
    assert_eq!(parse_rfc3339("not-a-date"), None);
    let negative = parse_rfc3339("1985-04-12T23:20:50.52-05:30").unwrap();
    assert_eq!(negative.offset_seconds, -(5 * 3600 + 30 * 60));
    assert_eq!(negative.nanosecond, 520_000_000);
}

#[test]
fn timestamp_fallback_still_encodes() {
    // A real calendar date that RFC 3339 cannot represent: a negative year.
    let mut record = single_record("https://example.com/a.pkg", "sig", UpdateFormat::ArchiveUpdate);
    record.publication_time = Some(Timestamp {
        year: -44,
        month: 3,
        day: 15,
        hour: 12,
        minute: 0,
        second: 0,
        nanosecond: 0,
        offset_seconds: 0,
    });
    let shape = encode(&record);
    let pub_date = shape.pub_date.expect("encode must still produce a pub_date");
    assert!(!pub_date.is_empty());

    // An offset that is no whole number of minutes takes the fallback too.
    record.publication_time = Some(Timestamp {
        year: 1927,
        month: 6,
        day: 1,
        hour: 0,
        minute: 0,
        second: 0,
        nanosecond: 0,
        offset_seconds: 8 * 3600 + 5 * 60 + 43,
    });
    let shape = encode(&record);
    let pub_date = shape.pub_date.expect("encode must still produce a pub_date");
    assert!(!pub_date.is_empty());
}

#[test]
fn encode_single_platform_scenario() {
    let record = single_record("https://example.com/a.pkg", "sig", UpdateFormat::ArchiveUpdate);
    let shape = encode(&record);
    assert_eq!(shape.name, "v1.0.0");
    assert_eq!(shape.notes, None);
    assert_eq!(shape.pub_date, None);
    assert!(shape.platforms.is_none());
    assert_eq!(shape.url, Some("https://example.com/a.pkg".to_string()));
    assert_eq!(shape.signature, Some("sig".to_string()));
    assert_eq!(shape.format, Some("archive-update".to_string()));
}

#[test]
fn encode_per_platform_scenario() {
    let record = ReleaseRecord {
        version: version3(2, 1, 0),
        notes: Some("notes".to_string()),
        publication_time: None,
        distribution: Distribution::PerPlatform {
            platforms: vec![(
                "linux-x86_64".to_string(),
                PlatformArtifact {
                    url: "https://example.com/linux.tar.gz".to_string(),
                    signature: "s1".to_string(),
                    format: UpdateFormat::ArchiveUpdate,
                },
            )],
        },
    };
    let shape = encode(&record);
    assert_eq!(shape.name, "v2.1.0");
    assert_eq!(shape.notes, Some("notes".to_string()));
    let platforms = shape.platforms.expect("platforms group must be populated");
    assert_eq!(platforms.len(), 1);
    assert_eq!(platforms[0].0, "linux-x86_64");
    assert_eq!(platforms[0].1.url, "https://example.com/linux.tar.gz");
    assert_eq!(platforms[0].1.signature, "s1");
    assert_eq!(platforms[0].1.format, "archive-update");
    assert_eq!(shape.url, None);
    assert_eq!(shape.signature, None);
    assert_eq!(shape.format, None);
}

#[test]
fn decode_rejects_ambiguous_distribution() {
    let mut shape = empty_shape("v1.0.0");
    shape.platforms = Some(Vec::new());
    shape.url = Some("https://x/y".to_string());
    assert_eq!(decode(&shape), Err(ManifestDecodeError::AmbiguousDistribution));
}

#[test]
fn decode_rejects_platforms_with_any_single_field() {
    let mut shape = empty_shape("v1.0.0");
    shape.platforms = Some(Vec::new());
    shape.format = Some("archive-update".to_string());
    assert_eq!(decode(&shape), Err(ManifestDecodeError::AmbiguousDistribution));
}

#[test]
fn decode_rejects_platform_entry_with_unknown_format() {
    let mut shape = empty_shape("v1.0.0");
    shape.platforms = Some(vec![(
        "darwin-aarch64".to_string(),
        ExternalArtifact {
            url: "https://example.com/mac.tar.gz".to_string(),
            signature: "s".to_string(),
            format: "floppy".to_string(),
        },
    )]);
    assert_eq!(decode(&shape), Err(ManifestDecodeError::MalformedFormat));
}

#[test]
fn decode_rejects_missing_distribution() {
    let shape = empty_shape("v1.0.0");
    assert_eq!(decode(&shape), Err(ManifestDecodeError::IncompleteDistribution));
}

#[test]
fn decode_rejects_partial_single_group() {
    let mut shape = empty_shape("v1.0.0");
    shape.url = Some("https://x/y".to_string());
    assert_eq!(decode(&shape), Err(ManifestDecodeError::IncompleteDistribution));
}

#[test]
fn decode_rejects_bad_timestamp() {
    let mut shape = empty_shape("v1.0.0");
    shape.pub_date = Some("not-a-date".to_string());
    shape.url = Some("https://x/y".to_string());
    shape.signature = Some("sig".to_string());
    shape.format = Some("archive-update".to_string());
    assert_eq!(decode(&shape), Err(ManifestDecodeError::MalformedTimestamp));
}

#[test]
fn decode_rejects_bad_version() {
    let mut shape = empty_shape("not-a-version");
    shape.url = Some("https://x/y".to_string());
    shape.signature = Some("sig".to_string());
    shape.format = Some("archive-update".to_string());
    assert_eq!(decode(&shape), Err(ManifestDecodeError::MalformedVersion));
    shape.name = "v1.2".to_string();
    assert_eq!(decode(&shape), Err(ManifestDecodeError::MalformedVersion));
}

#[test]
fn decode_rejects_bad_url() {
    let mut shape = empty_shape("v1.0.0");
    shape.url = Some("not a url".to_string());
    shape.signature = Some("sig".to_string());
    shape.format = Some("archive-update".to_string());
    assert_eq!(decode(&shape), Err(ManifestDecodeError::MalformedUrl));
}

#[test]
fn decode_rejects_unknown_format() {
    let mut shape = empty_shape("v1.0.0");
    shape.url = Some("https://x/y".to_string());
    shape.signature = Some("sig".to_string());
    shape.format = Some("floppy".to_string());
    assert_eq!(decode(&shape), Err(ManifestDecodeError::MalformedFormat));
}

#[test]
fn decode_rejects_bad_platform_entry() {
    let mut shape = empty_shape("v1.0.0");
    shape.platforms = Some(vec![(
        "linux-x86_64".to_string(),
        ExternalArtifact {
            url: "no scheme here".to_string(),
            signature: "s".to_string(),
            format: "archive-update".to_string(),
        },
    )]);
    assert_eq!(decode(&shape), Err(ManifestDecodeError::MalformedUrl));
}

#[test]
fn decode_normalizes_urls() {
    let mut shape = empty_shape("v1.0.0");
    shape.url = Some("https://EXAMPLE.com/path".to_string());
    shape.signature = Some("sig".to_string());
    shape.format = Some("archive-update".to_string());
    let decoded = decode(&shape).unwrap();
    match decoded.distribution {
        Distribution::SinglePlatform(a) => assert_eq!(a.url, "https://example.com/path"),
        Distribution::PerPlatform { .. } => panic!("wrong variant"),
    }
}

#[test]
fn round_trip_single_platform() {
    let mut record = single_record("https://example.com/a.pkg", "sig", UpdateFormat::RawInstaller);
    record.notes = Some("fixes".to_string());
    record.publication_time = Some(Timestamp {
        year: 2024,
        month: 12,
        day: 31,
        hour: 23,
        minute: 59,
        second: 59,
        nanosecond: 123_000_000,
        offset_seconds: -8 * 3600,
    });
    let decoded = decode(&encode(&record)).unwrap();
    assert_eq!(decoded, record);
}

#[test]
fn round_trip_pre_release() {
    let mut record = single_record("https://example.com/a.pkg", "sig", UpdateFormat::ArchiveUpdate);
    record.version = Version {
        core: VersionCore { major: 3, minor: 1, patch: 4 },
        pre: Some("alpha.2".to_string()),
    };
    let shape = encode(&record);
    assert_eq!(shape.name, "v3.1.4-alpha.2");
    let decoded = decode(&shape).unwrap();
    assert_eq!(decoded, record);
}

#[test]
fn round_trip_per_platform() {
    let record = ReleaseRecord {
        version: version3(10, 20, 30),
        notes: None,
        publication_time: Some(Timestamp {
            year: 2020,
            month: 2,
            day: 29,
            hour: 0,
            minute: 0,
            second: 0,
            nanosecond: 0,
            offset_seconds: 0,
        }),
        distribution: Distribution::PerPlatform {
            platforms: vec![
                (
                    "darwin-aarch64".to_string(),
                    PlatformArtifact {
                        url: "https://example.com/mac.tar.gz".to_string(),
                        signature: "s1".to_string(),
                        format: UpdateFormat::ArchiveUpdate,
                    },
                ),
                (
                    "windows-x86_64".to_string(),
                    PlatformArtifact {
                        url: "https://example.com/win.msi".to_string(),
                        signature: "s2".to_string(),
                        format: UpdateFormat::RawInstaller,
                    },
                ),
            ],
        },
    };
    let decoded = decode(&encode(&record)).unwrap();
    assert_eq!(decoded, record);
}

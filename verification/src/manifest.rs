//! The manifest codec: one logical release record, represented internally as
//! a tagged union over the distribution model, mapped to and from the one
//! canonical flat wire shape.
//!
//! Absent optional wire fields are held as `None` throughout; a serializer
//! may write them as `null` or omit them, which is outside this component.

use vstd::prelude::*;

use crate::timestamp::Timestamp;
use crate::timestamp::rendered_timestamp;
use crate::timestamp::render_timestamp;
use crate::timestamp::rfc3339_of;
use crate::timestamp::rfc3339_parse_of;
use crate::timestamp::rfc3339_representable;
use crate::timestamp::parse_rfc3339;
use crate::version::Version;
use crate::version::VersionV;
use crate::version::version_canon;
use crate::version::spec_parse_version;
use crate::version::render_version;
use crate::version::parse_version;
use crate::version::lemma_parse_canon;
use crate::version::lemma_dec_str;
use crate::version::dec_str;
use crate::weburl::url_parse_of;
use crate::weburl::parse_absolute_url;

verus! {

/// The package format tag of an update artifact. The full enumeration
/// belongs to the update pipeline; the codec maps each tag to and from its
/// wire string.
#[derive(Clone, Copy, PartialEq, Eq, Structural, Debug)]
pub enum UpdateFormat {
    ArchiveUpdate,
    RawInstaller,
}

/// The wire string of a format tag.
pub open spec fn format_tag(f: UpdateFormat) -> Seq<char> {
    match f {
        UpdateFormat::ArchiveUpdate => "archive-update"@,
        UpdateFormat::RawInstaller => "raw-installer"@,
    }
}

/// The format tag a wire string denotes, if any.
pub open spec fn spec_parse_format(s: Seq<char>) -> Option<UpdateFormat> {
    if s == "archive-update"@ {
        Some(UpdateFormat::ArchiveUpdate)
    } else if s == "raw-installer"@ {
        Some(UpdateFormat::RawInstaller)
    } else {
        None
    }
}

/// Each format tag's wire string reads back as that tag.
pub proof fn lemma_format_tag_round_trip(f: UpdateFormat)
    ensures
        spec_parse_format(format_tag(f)) == Some(f),
{
    reveal_strlit("archive-update");
    reveal_strlit("raw-installer");
    assert("archive-update"@.len() == 14);
    assert("raw-installer"@.len() == 13);
}

/// Render a format tag as its wire string.
pub fn format_to_string(f: UpdateFormat) -> (r: String)
    ensures
        r@ == format_tag(f),
{
    match f {
        UpdateFormat::ArchiveUpdate => String::from_str("archive-update"),
        UpdateFormat::RawInstaller => String::from_str("raw-installer"),
    }
}

/// Parse a wire format string.
pub fn parse_format(s: &String) -> (r: Option<UpdateFormat>)
    ensures
        r == spec_parse_format(s@),
{
    let archive = String::from_str("archive-update");
    if *s == archive {
        return Some(UpdateFormat::ArchiveUpdate);
    }
    let raw = String::from_str("raw-installer");
    if *s == raw {
        return Some(UpdateFormat::RawInstaller);
    }
    None
}

/// One downloadable update payload descriptor.
#[derive(Clone, PartialEq, Eq, Debug)]
pub struct PlatformArtifact {
    /// A validated absolute URL, held in its normalized serialization.
    pub url: String,
    /// Opaque signature text; not interpreted by this component.
    pub signature: String,
    pub format: UpdateFormat,
}

#[verifier::ext_equal]
pub struct PlatformArtifactV {
    pub url: Seq<char>,
    pub signature: Seq<char>,
    pub format: UpdateFormat,
}

impl View for PlatformArtifact {
    type V = PlatformArtifactV;

    open spec fn view(&self) -> PlatformArtifactV {
        PlatformArtifactV { url: self.url@, signature: self.signature@, format: self.format }
    }
}

/// An artifact as it stands on the wire: all three fields plain strings.
#[derive(Clone, PartialEq, Eq, Debug)]
pub struct ExternalArtifact {
    pub url: String,
    pub signature: String,
    pub format: String,
}

#[verifier::ext_equal]
pub struct ExternalArtifactV {
    pub url: Seq<char>,
    pub signature: Seq<char>,
    pub format: Seq<char>,
}

impl View for ExternalArtifact {
    type V = ExternalArtifactV;

    open spec fn view(&self) -> ExternalArtifactV {
        ExternalArtifactV { url: self.url@, signature: self.signature@, format: self.format@ }
    }
}

/// Which distribution model a release uses: a per-platform artifact table,
/// or one artifact for a dynamically resolved platform.
#[derive(Clone, PartialEq, Eq, Debug)]
pub enum Distribution {
    PerPlatform { platforms: Vec<(String, PlatformArtifact)> },
    SinglePlatform(PlatformArtifact),
}

#[verifier::ext_equal]
pub enum DistributionV {
    PerPlatform(Seq<(Seq<char>, PlatformArtifactV)>),
    SinglePlatform(PlatformArtifactV),
}

pub open spec fn pairs_view(s: Seq<(String, PlatformArtifact)>) -> Seq<
    (Seq<char>, PlatformArtifactV),
> {
    s.map_values(|p: (String, PlatformArtifact)| (p.0@, p.1@))
}

pub open spec fn ext_pairs_view(s: Seq<(String, ExternalArtifact)>) -> Seq<
    (Seq<char>, ExternalArtifactV),
> {
    s.map_values(|p: (String, ExternalArtifact)| (p.0@, p.1@))
}

impl View for Distribution {
    type V = DistributionV;

    open spec fn view(&self) -> DistributionV {
        match self {
            Distribution::PerPlatform { platforms } => DistributionV::PerPlatform(
                pairs_view(platforms@),
            ),
            Distribution::SinglePlatform(artifact) => DistributionV::SinglePlatform(artifact@),
        }
    }
}

/// The internal representation of one update release.
#[derive(Clone, PartialEq, Eq, Debug)]
pub struct ReleaseRecord {
    pub version: Version,
    pub notes: Option<String>,
    pub publication_time: Option<Timestamp>,
    pub distribution: Distribution,
}

#[verifier::ext_equal]
pub struct ReleaseRecordV {
    pub version: VersionV,
    pub notes: Option<Seq<char>>,
    pub publication_time: Option<Timestamp>,
    pub distribution: DistributionV,
}

impl View for ReleaseRecord {
    type V = ReleaseRecordV;

    open spec fn view(&self) -> ReleaseRecordV {
        ReleaseRecordV {
            version: self.version@,
            notes: match self.notes {
                Some(ref n) => Some(n@),
                None => None,
            },
            publication_time: self.publication_time,
            distribution: self.distribution@,
        }
    }
}

/// The canonical wire schema: one flat object, independent of which
/// distribution variant produced it.
#[derive(Clone, PartialEq, Eq, Debug)]
pub struct ExternalManifestShape {
    /// The version, prefixed with a literal `v`.
    pub name: String,
    pub notes: Option<String>,
    /// An RFC 3339 timestamp when present (or, on the encode path, the
    /// fallback rendering where RFC 3339 cannot represent the value).
    pub pub_date: Option<String>,
    /// Present exactly for the per-platform variant.
    pub platforms: Option<Vec<(String, ExternalArtifact)>>,
    /// Present exactly for the single-platform variant, with `signature`
    /// and `format`.
    pub url: Option<String>,
    pub signature: Option<String>,
    pub format: Option<String>,
}

#[verifier::ext_equal]
pub struct ExternalManifestShapeV {
    pub name: Seq<char>,
    pub notes: Option<Seq<char>>,
    pub pub_date: Option<Seq<char>>,
    pub platforms: Option<Seq<(Seq<char>, ExternalArtifactV)>>,
    pub url: Option<Seq<char>>,
    pub signature: Option<Seq<char>>,
    pub format: Option<Seq<char>>,
}

impl View for ExternalManifestShape {
    type V = ExternalManifestShapeV;

    open spec fn view(&self) -> ExternalManifestShapeV {
        ExternalManifestShapeV {
            name: self.name@,
            notes: match self.notes {
                Some(ref n) => Some(n@),
                None => None,
            },
            pub_date: match self.pub_date {
                Some(ref d) => Some(d@),
                None => None,
            },
            platforms: match self.platforms {
                Some(ref ps) => Some(ext_pairs_view(ps@)),
                None => None,
            },
            url: match self.url {
                Some(ref u) => Some(u@),
                None => None,
            },
            signature: match self.signature {
                Some(ref s) => Some(s@),
                None => None,
            },
            format: match self.format {
                Some(ref f) => Some(f@),
                None => None,
            },
        }
    }
}

/// A structural decode failure. Decoding either yields a full record or one
/// of these; it never partially applies.
#[derive(Clone, Copy, PartialEq, Eq, Structural, Debug)]
pub enum ManifestDecodeError {
    /// The name field is not a semantic version (with or without a leading
    /// `v`/`V`).
    MalformedVersion,
    /// `pub_date` is present but not valid RFC 3339.
    MalformedTimestamp,
    /// A `url` is present but not a valid absolute URL.
    MalformedUrl,
    /// A `format` is present but not a known format tag. This case stands
    /// beside the structural errors: an unintelligible tag is surfaced
    /// rather than folded into another error.
    MalformedFormat,
    /// Both the `platforms` group and the single-artifact group are present.
    AmbiguousDistribution,
    /// Neither group is present, or the single-artifact group only in part.
    IncompleteDistribution,
}

/// Keys of a per-platform table are unique.
pub open spec fn platform_keys_unique(ps: Seq<(Seq<char>, PlatformArtifactV)>) -> bool {
    forall|i: int, j: int| 0 <= i < j < ps.len() ==> (#[trigger] ps[i]).0 != (#[trigger] ps[j]).0
}

/// A well-formed record: the version is well-formed, any timestamp is a
/// real calendar value, and the platform table keeps its keys unique.
pub open spec fn record_wf(r: ReleaseRecordV) -> bool {
    &&& r.version.wf()
    &&& (r.publication_time matches Some(t) ==> t.wf())
    &&& (r.distribution matches DistributionV::PerPlatform(ps) ==> platform_keys_unique(ps))
}

/// Keys of a wire shape's platform table are unique. A table read from a
/// JSON object has this by construction.
pub open spec fn external_keys_unique(s: ExternalManifestShapeV) -> bool {
    s.platforms matches Some(ps) ==> forall|i: int, j: int|
        0 <= i < j < ps.len() ==> (#[trigger] ps[i]).0 != (#[trigger] ps[j]).0
}

/// The wire form of one artifact.
pub open spec fn external_of_artifact(a: PlatformArtifactV) -> ExternalArtifactV {
    ExternalArtifactV { url: a.url, signature: a.signature, format: format_tag(a.format) }
}

pub open spec fn encode_platforms_spec(ps: Seq<(Seq<char>, PlatformArtifactV)>) -> Seq<
    (Seq<char>, ExternalArtifactV),
> {
    ps.map_values(|p: (Seq<char>, PlatformArtifactV)| (p.0, external_of_artifact(p.1)))
}

/// What encoding a record yields: the name is the `v`-prefixed canonical
/// version; notes pass through; a timestamp renders as RFC 3339 with the
/// default textual form as fallback; and exactly one distribution group is
/// populated, by the active variant.
pub open spec fn encode_spec(r: ReleaseRecordV) -> ExternalManifestShapeV {
    ExternalManifestShapeV {
        name: seq!['v'] + version_canon(r.version),
        notes: r.notes,
        pub_date: match r.publication_time {
            Some(t) => Some(rendered_timestamp(t)),
            None => None,
        },
        platforms: match r.distribution {
            DistributionV::PerPlatform(ps) => Some(encode_platforms_spec(ps)),
            DistributionV::SinglePlatform(_) => None,
        },
        url: match r.distribution {
            DistributionV::PerPlatform(_) => None,
            DistributionV::SinglePlatform(a) => Some(a.url),
        },
        signature: match r.distribution {
            DistributionV::PerPlatform(_) => None,
            DistributionV::SinglePlatform(a) => Some(a.signature),
        },
        format: match r.distribution {
            DistributionV::PerPlatform(_) => None,
            DistributionV::SinglePlatform(a) => Some(format_tag(a.format)),
        },
    }
}

/// Encode a well-formed record into the wire shape. Total: there is no
/// error path; an unrepresentable timestamp falls back to its default
/// textual rendering rather than failing the encode.
pub fn encode(record: &ReleaseRecord) -> (r: ExternalManifestShape)
    requires
        record_wf(record@),
    ensures
        r@ == encode_spec(record@),
        record@.publication_time matches Some(t) ==> rendered_timestamp(t).len() > 0,
{
    proof {
        reveal_strlit("v");
        assert("v"@ =~= seq!['v']);
    }
    let mut name = String::from_str("v");
    let version_str = render_version(&record.version);
    name.append(version_str.as_str());
    let notes: Option<String> = match &record.notes {
        Some(n) => Some(n.clone()),
        None => None,
    };
    let pub_date: Option<String> = match &record.publication_time {
        Some(t) => Some(render_timestamp(t)),
        None => None,
    };
    let r = match &record.distribution {
        Distribution::PerPlatform { platforms } => {
            let mut out: Vec<(String, ExternalArtifact)> = Vec::new();
            let mut idx: usize = 0;
            while idx < platforms.len()
                invariant
                    idx <= platforms@.len(),
                    ext_pairs_view(out@) == encode_platforms_spec(
                        pairs_view(platforms@).subrange(0, idx as int),
                    ),
                decreases platforms@.len() - idx,
            {
                let p = &platforms[idx];
                let ea = ExternalArtifact {
                    url: p.1.url.clone(),
                    signature: p.1.signature.clone(),
                    format: format_to_string(p.1.format),
                };
                let ghost prev = out@;
                let key = p.0.clone();
                out.push((key, ea));
                proof {
                    let ps = pairs_view(platforms@);
                    let q = platforms@[idx as int];
                    assert(ps[idx as int] == (q.0@, q.1@));
                    assert(ea@ =~= external_of_artifact(ps[idx as int].1));
                    assert(ext_pairs_view(out@) =~= ext_pairs_view(prev).push(
                        (p.0@, ea@),
                    ));
                    assert(encode_platforms_spec(ps.subrange(0, idx + 1 as int)) =~=
                        encode_platforms_spec(ps.subrange(0, idx as int)).push(
                        (ps[idx as int].0, external_of_artifact(ps[idx as int].1)),
                    ));
                    assert(ext_pairs_view(out@) =~= encode_platforms_spec(
                        pairs_view(platforms@).subrange(0, idx + 1 as int),
                    ));
                }
                idx += 1;
            }
            proof {
                assert(pairs_view(platforms@).subrange(0, platforms@.len() as int) =~= pairs_view(
                    platforms@,
                ));
            }
            ExternalManifestShape {
                name,
                notes,
                pub_date,
                platforms: Some(out),
                url: None,
                signature: None,
                format: None,
            }
        },
        Distribution::SinglePlatform(artifact) => ExternalManifestShape {
            name,
            notes,
            pub_date,
            platforms: None,
            url: Some(artifact.url.clone()),
            signature: Some(artifact.signature.clone()),
            format: Some(format_to_string(artifact.format)),
        },
    };
    proof {
        assert(r@ =~~= encode_spec(record@));
    }
    r
}

/// The name field with one leading `v` or `V` removed, if it has one.
pub open spec fn stripped_name(s: Seq<char>) -> Seq<char> {
    if s.len() > 0 && (s[0] == 'v' || s[0] == 'V') {
        s.subrange(1, s.len() as int)
    } else {
        s
    }
}

/// Decoding the per-platform table, entry by entry: the first entry whose
/// URL is no absolute URL, or whose format is no known tag, fails the whole
/// decode; otherwise each URL is held normalized and each tag structured.
pub open spec fn decode_platforms_spec(ps: Seq<(Seq<char>, ExternalArtifactV)>) -> Result<
    Seq<(Seq<char>, PlatformArtifactV)>,
    ManifestDecodeError,
>
    decreases ps.len(),
{
    if ps.len() == 0 {
        Ok(Seq::empty())
    } else {
        match decode_platforms_spec(ps.drop_last()) {
            Err(e) => Err(e),
            Ok(rest) => {
                let p = ps.last();
                match url_parse_of(p.1.url) {
                    None => Err(ManifestDecodeError::MalformedUrl),
                    Some(u) => match spec_parse_format(p.1.format) {
                        None => Err(ManifestDecodeError::MalformedFormat),
                        Some(f) => Ok(
                            rest.push((p.0, PlatformArtifactV { url: u, signature: p.1.signature, format: f })),
                        ),
                    },
                }
            },
        }
    }
}

/// Reconstructing the distribution variant from whichever field group is
/// present: both groups is ambiguous; neither, or a partial single-artifact
/// group, is incomplete.
pub open spec fn decode_distribution_spec(s: ExternalManifestShapeV) -> Result<
    DistributionV,
    ManifestDecodeError,
> {
    let single_any = s.url is Some || s.signature is Some || s.format is Some;
    match s.platforms {
        Some(ps) => if single_any {
            Err(ManifestDecodeError::AmbiguousDistribution)
        } else {
            match decode_platforms_spec(ps) {
                Err(e) => Err(e),
                Ok(entries) => Ok(DistributionV::PerPlatform(entries)),
            }
        },
        None => if s.url is Some && s.signature is Some && s.format is Some {
            match url_parse_of(s.url->0) {
                None => Err(ManifestDecodeError::MalformedUrl),
                Some(u) => match spec_parse_format(s.format->0) {
                    None => Err(ManifestDecodeError::MalformedFormat),
                    Some(f) => Ok(
                        DistributionV::SinglePlatform(
                            PlatformArtifactV { url: u, signature: s.signature->0, format: f },
                        ),
                    ),
                },
            }
        } else {
            Err(ManifestDecodeError::IncompleteDistribution)
        },
    }
}

/// A present `pub_date` must be RFC 3339; an absent one decodes to no
/// timestamp.
pub open spec fn decode_pub_date_spec(pd: Option<Seq<char>>) -> Result<
    Option<Timestamp>,
    ManifestDecodeError,
> {
    match pd {
        None => Ok(None),
        Some(ds) => match rfc3339_parse_of(ds) {
            None => Err(ManifestDecodeError::MalformedTimestamp),
            Some(t) => Ok(Some(t)),
        },
    }
}

/// What decoding a wire shape yields: the version is read with the `v`
/// prefix tolerated, a present `pub_date` must be RFC 3339, and the
/// distribution comes from whichever group is present. Errors fall in this
/// order: version, timestamp, then distribution.
pub open spec fn decode_spec(s: ExternalManifestShapeV) -> Result<
    ReleaseRecordV,
    ManifestDecodeError,
> {
    match spec_parse_version(stripped_name(s.name)) {
        None => Err(ManifestDecodeError::MalformedVersion),
        Some(v) => {
            match decode_pub_date_spec(s.pub_date) {
                Err(e) => Err(e),
                Ok(publication_time) => match decode_distribution_spec(s) {
                    Err(e) => Err(e),
                    Ok(distribution) => Ok(
                        ReleaseRecordV { version: v, notes: s.notes, publication_time, distribution },
                    ),
                },
            }
        },
    }
}

/// A failed prefix fails the whole table, with the same error.
proof fn lemma_decode_platforms_err_extends(ps: Seq<(Seq<char>, ExternalArtifactV)>, k: int)
    requires
        0 <= k <= ps.len(),
        decode_platforms_spec(ps.subrange(0, k)) is Err,
    ensures
        decode_platforms_spec(ps) == decode_platforms_spec(ps.subrange(0, k)),
    decreases ps.len(),
{
    if k == ps.len() {
        assert(ps.subrange(0, k) =~= ps);
    } else {
        let t = ps.drop_last();
        assert(ps.subrange(0, k) =~= t.subrange(0, k));
        lemma_decode_platforms_err_extends(t, k);
    }
}

/// A decoded table keeps its keys: entry by entry, in order.
proof fn lemma_decode_platforms_keys(ps: Seq<(Seq<char>, ExternalArtifactV)>)
    requires
        decode_platforms_spec(ps) is Ok,
    ensures
        decode_platforms_spec(ps)->Ok_0.len() == ps.len(),
        forall|k: int|
            0 <= k < ps.len() ==> (#[trigger] decode_platforms_spec(ps)->Ok_0[k]).0 == ps[k].0,
    decreases ps.len(),
{
    if ps.len() > 0 {
        let t = ps.drop_last();
        lemma_decode_platforms_keys(t);
        assert(forall|k: int| 0 <= k < t.len() ==> t[k] == ps[k]);
    }
}

/// Decode a wire shape back into a release record, or report the first
/// structural defect. Succeeds if and only if the shape carries a canonical
/// version (`v`-prefixed or bare), a parseable `pub_date` where present, and
/// exactly one complete distribution group whose URLs are absolute and whose
/// format tags are known; `decode_spec` states the result exactly.
pub fn decode(shape: &ExternalManifestShape) -> (r: Result<ReleaseRecord, ManifestDecodeError>)
    ensures
        r matches Ok(rec) ==> decode_spec(shape@) == Ok::<ReleaseRecordV, ManifestDecodeError>(
            rec@,
        ),
        r matches Err(e) ==> decode_spec(shape@) == Err::<ReleaseRecordV, ManifestDecodeError>(e),
        r matches Ok(rec) ==> (external_keys_unique(shape@) ==> record_wf(rec@)),
{
    let name_str = shape.name.as_str();
    let nlen = name_str.unicode_len();
    let has_prefix = if nlen > 0 {
        let c0 = name_str.get_char(0) as u32;
        c0 == 118 || c0 == 86
    } else {
        false
    };
    let stripped: &str = if has_prefix {
        name_str.substring_char(1, nlen)
    } else {
        name_str
    };
    proof {
        assert('v' as int == 118);
        assert('V' as int == 86);
        assert(stripped@ =~= stripped_name(shape@.name));
    }
    let version = match parse_version(stripped) {
        Some(v) => v,
        None => {
            return Err(ManifestDecodeError::MalformedVersion);
        },
    };
    let publication_time: Option<Timestamp> = match &shape.pub_date {
        Some(ds) => match parse_rfc3339(ds.as_str()) {
            Some(t) => Some(t),
            None => {
                return Err(ManifestDecodeError::MalformedTimestamp);
            },
        },
        None => None,
    };
    let notes: Option<String> = match &shape.notes {
        Some(n) => Some(n.clone()),
        None => None,
    };
    let single_any = shape.url.is_some() || shape.signature.is_some() || shape.format.is_some();
    match &shape.platforms {
        Some(ps) => {
            if single_any {
                return Err(ManifestDecodeError::AmbiguousDistribution);
            }
            let mut entries: Vec<(String, PlatformArtifact)> = Vec::new();
            let mut idx: usize = 0;
            proof {
                assert(ext_pairs_view(ps@).subrange(0, 0) =~= Seq::<
                    (Seq<char>, ExternalArtifactV),
                >::empty());
                assert(decode_platforms_spec(
                    Seq::<(Seq<char>, ExternalArtifactV)>::empty(),
                ) == Ok::<Seq<(Seq<char>, PlatformArtifactV)>, ManifestDecodeError>(Seq::empty()));
                assert(pairs_view(entries@) =~= Seq::<(Seq<char>, PlatformArtifactV)>::empty());
            }
            while idx < ps.len()
                invariant
                    idx <= ps@.len(),
                    decode_platforms_spec(ext_pairs_view(ps@).subrange(0, idx as int)) == Ok::<
                        Seq<(Seq<char>, PlatformArtifactV)>,
                        ManifestDecodeError,
                    >(pairs_view(entries@)),
                    shape@.platforms == Some(ext_pairs_view(ps@)),
                    !(shape@.url is Some),
                    !(shape@.signature is Some),
                    !(shape@.format is Some),
                    spec_parse_version(stripped_name(shape@.name)) == Some(version@),
                    version@.wf(),
                    publication_time matches Some(t) ==> t.wf(),
                    decode_pub_date_spec(shape@.pub_date) == Ok::<
                        Option<Timestamp>,
                        ManifestDecodeError,
                    >(publication_time),
                decreases ps@.len() - idx,
            {
                let p = &ps[idx];
                proof {
                    let full = ext_pairs_view(ps@);
                    assert(full.subrange(0, idx + 1 as int).drop_last() =~= full.subrange(
                        0,
                        idx as int,
                    ));
                    assert(full.subrange(0, idx + 1 as int).last() == full[idx as int]);
                    assert(full[idx as int] == (p.0@, p.1@));
                }
                let url = match parse_absolute_url(p.1.url.as_str()) {
                    Some(u) => u,
                    None => {
                        proof {
                            let full = ext_pairs_view(ps@);
                            assert(decode_platforms_spec(full.subrange(0, idx + 1 as int))
                                == Err::<Seq<(Seq<char>, PlatformArtifactV)>, ManifestDecodeError>(
                                ManifestDecodeError::MalformedUrl,
                            ));
                            lemma_decode_platforms_err_extends(full, idx + 1 as int);
                        }
                        return Err(ManifestDecodeError::MalformedUrl);
                    },
                };
                let format = match parse_format(&p.1.format) {
                    Some(f) => f,
                    None => {
                        proof {
                            let full = ext_pairs_view(ps@);
                            assert(decode_platforms_spec(full.subrange(0, idx + 1 as int))
                                == Err::<Seq<(Seq<char>, PlatformArtifactV)>, ManifestDecodeError>(
                                ManifestDecodeError::MalformedFormat,
                            ));
                            lemma_decode_platforms_err_extends(full, idx + 1 as int);
                        }
                        return Err(ManifestDecodeError::MalformedFormat);
                    },
                };
                let ghost prev = entries@;
                let key = p.0.clone();
                entries.push((key, PlatformArtifact { url, signature: p.1.signature.clone(), format }));
                proof {
                    assert(pairs_view(entries@) =~= pairs_view(prev).push(
                        (entries@.last().0@, entries@.last().1@),
                    ));
                }
                idx += 1;
            }
            proof {
                assert(ext_pairs_view(ps@).subrange(0, ps@.len() as int) =~= ext_pairs_view(ps@));
            }
            let rec = ReleaseRecord {
                version,
                notes,
                publication_time,
                distribution: Distribution::PerPlatform { platforms: entries },
            };
            proof {
                assert(decode_spec(shape@) == Ok::<ReleaseRecordV, ManifestDecodeError>(rec@))
                    by {
                    assert(rec@.distribution =~~= DistributionV::PerPlatform(
                        pairs_view(rec.distribution->PerPlatform_platforms@),
                    ));
                    assert(decode_spec(shape@)->Ok_0 =~~= rec@);
                }
                if external_keys_unique(shape@) {
                    let full = ext_pairs_view(ps@);
                    let es = pairs_view(entries@);
                    lemma_decode_platforms_keys(full);
                    assert(forall|k: int| 0 <= k < full.len() ==> (#[trigger] es[k]).0
                        == full[k].0);
                    assert(platform_keys_unique(es));
                }
            }
            Ok(rec)
        },
        None => {
            let (u, sg, f) = match (&shape.url, &shape.signature, &shape.format) {
                (Some(u), Some(sg), Some(f)) => (u, sg, f),
                _ => {
                    return Err(ManifestDecodeError::IncompleteDistribution);
                },
            };
            let url = match parse_absolute_url(u.as_str()) {
                Some(x) => x,
                None => {
                    return Err(ManifestDecodeError::MalformedUrl);
                },
            };
            let format = match parse_format(f) {
                Some(x) => x,
                None => {
                    return Err(ManifestDecodeError::MalformedFormat);
                },
            };
            let rec = ReleaseRecord {
                version,
                notes,
                publication_time,
                distribution: Distribution::SinglePlatform(
                    PlatformArtifact { url, signature: sg.clone(), format },
                ),
            };
            proof {
                assert(decode_spec(shape@)->Ok_0 =~~= rec@);
                assert(record_wf(rec@));
            }
            Ok(rec)
        },
    }
}

/// Variant exclusivity: an encoded shape populates exactly one of the
/// `platforms` group and the `url`/`signature`/`format` group — never both,
/// never neither — and the three single-artifact fields stand or fall
/// together.
pub proof fn lemma_encode_variant_exclusivity(r: ReleaseRecordV)
    ensures
        !(encode_spec(r).platforms is Some && encode_spec(r).url is Some),
        encode_spec(r).platforms is Some || encode_spec(r).url is Some,
        (encode_spec(r).url is Some) == (encode_spec(r).signature is Some),
        (encode_spec(r).url is Some) == (encode_spec(r).format is Some),
{
}

/// Version prefixing: the encoded name strips back to the version it
/// renders, and a bare (unprefixed) canonical rendering decodes to the same
/// version — decode tolerates both forms.
pub proof fn lemma_name_round_trip(v: VersionV)
    requires
        v.wf(),
    ensures
        spec_parse_version(stripped_name(seq!['v'] + version_canon(v))) == Some(v),
        spec_parse_version(stripped_name(seq!['V'] + version_canon(v))) == Some(v),
        spec_parse_version(stripped_name(version_canon(v))) == Some(v),
{
    assert((seq!['v'] + version_canon(v))[0] == 'v');
    assert(stripped_name(seq!['v'] + version_canon(v)) =~= version_canon(v));
    assert((seq!['V'] + version_canon(v))[0] == 'V');
    assert(stripped_name(seq!['V'] + version_canon(v)) =~= version_canon(v));
    lemma_parse_canon(v);
    lemma_dec_str(v.core.major as nat);
    assert(version_canon(v)[0] == dec_str(v.core.major as nat)[0]);
    assert('v' as int == 118);
    assert('V' as int == 86);
    assert(version_canon(v)[0] != 'v' && version_canon(v)[0] != 'V');
    assert(stripped_name(version_canon(v)) == version_canon(v));
}

/// An artifact whose URL is already in its normalized, parsed form: what
/// `url::Url::parse` returns for it is the URL itself. Every artifact built
/// by the decoder, or carried from a parsed URL, has this shape.
pub open spec fn artifact_normalized(a: PlatformArtifactV) -> bool {
    url_parse_of(a.url) == Some(a.url)
}

/// A valid record: well-formed, its artifact URLs normalized, and any
/// timestamp one that RFC 3339 represents and reads back — which, by the
/// formatter's contract, holds of every representable timestamp.
pub open spec fn record_valid(r: ReleaseRecordV) -> bool {
    &&& record_wf(r)
    &&& (r.publication_time matches Some(t) ==> rfc3339_representable(t) && rfc3339_parse_of(
        rfc3339_of(t),
    ) == Some(t))
    &&& (match r.distribution {
        DistributionV::PerPlatform(ps) => forall|k: int|
            0 <= k < ps.len() ==> artifact_normalized((#[trigger] ps[k]).1),
        DistributionV::SinglePlatform(a) => artifact_normalized(a),
    })
}

/// Decoding an encoded per-platform table gives the table back.
proof fn lemma_decode_platforms_round_trip(ps: Seq<(Seq<char>, PlatformArtifactV)>)
    requires
        forall|k: int| 0 <= k < ps.len() ==> artifact_normalized((#[trigger] ps[k]).1),
    ensures
        decode_platforms_spec(encode_platforms_spec(ps)) == Ok::<
            Seq<(Seq<char>, PlatformArtifactV)>,
            ManifestDecodeError,
        >(ps),
    decreases ps.len(),
{
    let m = encode_platforms_spec(ps);
    if ps.len() == 0 {
        assert(m =~= Seq::<(Seq<char>, ExternalArtifactV)>::empty());
        assert(ps =~= Seq::<(Seq<char>, PlatformArtifactV)>::empty());
    } else {
        let t = ps.drop_last();
        assert(m.drop_last() =~= encode_platforms_spec(t));
        assert(forall|k: int| 0 <= k < t.len() ==> t[k] == ps[k]);
        lemma_decode_platforms_round_trip(t);
        let p = ps.last();
        assert(p == ps[ps.len() - 1]);
        assert(artifact_normalized(p.1));
        lemma_format_tag_round_trip(p.1.format);
        assert(m.last() == (p.0, external_of_artifact(p.1)));
        let rebuilt = PlatformArtifactV {
            url: p.1.url,
            signature: p.1.signature,
            format: p.1.format,
        };
        assert(rebuilt == p.1);
        assert(t.push((p.0, rebuilt)) =~= ps);
    }
}

/// Round trip: decoding an encoded valid record reconstructs the record,
/// field for field. The one allowance is the timestamp: a record whose
/// timestamp RFC 3339 cannot represent encodes through the fallback
/// rendering, which decode rightly need not read back.
pub proof fn lemma_round_trip(r: ReleaseRecordV)
    requires
        record_valid(r),
    ensures
        decode_spec(encode_spec(r)) == Ok::<ReleaseRecordV, ManifestDecodeError>(r),
{
    let s = encode_spec(r);
    assert(s.name[0] == 'v');
    assert(stripped_name(s.name) =~= version_canon(r.version));
    lemma_parse_canon(r.version);
    match r.publication_time {
        Some(t) => {
            assert(rendered_timestamp(t) == rfc3339_of(t));
            assert(decode_pub_date_spec(s.pub_date) == Ok::<
                Option<Timestamp>,
                ManifestDecodeError,
            >(Some(t)));
        },
        None => {
            assert(decode_pub_date_spec(s.pub_date) == Ok::<
                Option<Timestamp>,
                ManifestDecodeError,
            >(None));
        },
    }
    match r.distribution {
        DistributionV::PerPlatform(ps) => {
            lemma_decode_platforms_round_trip(ps);
            assert(decode_spec(s)->Ok_0 =~~= r);
        },
        DistributionV::SinglePlatform(a) => {
            assert(artifact_normalized(a));
            lemma_format_tag_round_trip(a.format);
            assert(decode_spec(s)->Ok_0 =~~= r);
        },
    }
}

} // verus!

//! The versioned profile manifest and the migration decisions taken when a
//! profile directory is prepared.
use vstd::prelude::*;
use crate::text_util::{decimal, string_push, str_to_chars, u64_to_decimal};

verus! {

/// Schema version of the profile manifest that this engine writes.
pub const PROFILE_SCHEMA_VERSION: u32 = 2;

/// The manifest stored at the root of a profile directory.
#[derive(Clone, Debug, PartialEq, Eq)]
pub struct ProfileManifest {
    pub schema_version: u32,
    pub engine_version: String,
    pub created_millis: u64,
    pub last_migrated_millis: u64,
}

/// What preparing a profile found and did.
#[derive(Clone, Debug, PartialEq, Eq)]
pub struct ProfileMigrationReport {
    pub profile_dir: String,
    pub previous_version: Option<u32>,
    pub current_version: u32,
    pub created: bool,
    pub migrated: bool,
    pub recovered_corrupt_manifest: Option<String>,
    pub actions: Vec<String>,
}

/// Why a profile could not be prepared.
#[derive(Clone, Debug, PartialEq, Eq)]
pub enum ProfileError {
    Io(String),
    Json(String),
    FutureVersion { found: u32, supported: u32 },
}

/// What was found where the manifest belongs.
#[derive(Clone, Debug, PartialEq, Eq)]
pub enum ManifestState {
    /// A manifest that parsed.
    Loaded(ProfileManifest),
    /// A manifest that did not parse, now moved to `recovery_path`.
    Corrupt { recovery_path: String },
    /// No manifest; whether a legacy `local-storage` directory exists.
    Missing { legacy_local_storage: bool },
}

pub open spec fn engine_version_chars() -> Seq<char> {
    seq!['0', '.', '6', '.', '0']
}

pub open spec fn moved_prefix() -> Seq<char> {
    "moved corrupt profile manifest to "@
}

pub open spec fn legacy_action() -> Seq<char> {
    "adopted legacy local-storage profile as schema 1"@
}

/// `migrated profile schema <from> to 2`.
pub open spec fn migrated_action(from: u32) -> Seq<char> {
    "migrated profile schema "@ + decimal(from as nat) + " to "@ + decimal(2)
}

impl ProfileManifest {
    /// A fresh manifest at the current schema, created and migrated at `now`.
    pub fn new(now: u64) -> (r: Self)
        ensures
            r.schema_version == 2,
            r.engine_version@ == engine_version_chars(),
            r.created_millis == now,
            r.last_migrated_millis == now,
    {
        ProfileManifest {
            schema_version: PROFILE_SCHEMA_VERSION,
            engine_version: engine_version_string(),
            created_millis: now,
            last_migrated_millis: now,
        }
    }
}

fn engine_version_string() -> (r: String)
    ensures
        r@ == engine_version_chars(),
{
    let v = crate::engine::version();
    let chars = str_to_chars(v);
    crate::text_util::chars_to_string(chars.as_slice())
}

fn append_str(out: &mut String, s: &str)
    ensures
        final(out)@ == old(out)@ + s@,
{
    let chars = str_to_chars(s);
    let ghost start = out@;
    let mut i: usize = 0;
    while i < chars.len()
        invariant
            i <= chars@.len(),
            chars@ == s@,
            out@ == start + s@.take(i as int),
        decreases chars@.len() - i,
    {
        string_push(out, chars[i]);
        assert(out@ =~= start + s@.take(i + 1));
        i += 1;
    }
    assert(s@.take(i as int) =~= s@);
}

/// The manifest to write and the report, once the manifest state is known,
/// or the error for a manifest newer than this engine.
pub fn plan_profile(profile_dir: String, state: ManifestState, now: u64) -> (r: Result<
    (ProfileManifest, ProfileMigrationReport),
    ProfileError,
>)
    ensures
        ({
            let found = match state {
                ManifestState::Loaded(m) => m.schema_version,
                _ => 2u32,
            };
            &&& r is Err <==> found > 2
            &&& r is Err ==> r == Err::<(ProfileManifest, ProfileMigrationReport), ProfileError>(
                ProfileError::FutureVersion { found, supported: 2 },
            )
        }),
        r matches Ok((m, rep)) ==> {
            &&& m.schema_version == 2
            &&& m.engine_version@ == engine_version_chars()
            &&& rep.profile_dir@ == profile_dir@
            &&& rep.current_version == 2
            &&& match state {
                ManifestState::Loaded(old_m) => {
                    &&& m.created_millis == old_m.created_millis
                    &&& m.last_migrated_millis == (if old_m.schema_version < 2 {
                        now
                    } else {
                        old_m.last_migrated_millis
                    })
                    &&& rep.previous_version == Some(old_m.schema_version)
                    &&& !rep.created
                    &&& rep.migrated == (old_m.schema_version < 2)
                    &&& rep.recovered_corrupt_manifest is None
                    &&& rep.actions@.len() == (if old_m.schema_version < 2 {
                        1int
                    } else {
                        0
                    })
                    &&& old_m.schema_version < 2 ==> rep.actions@[0]@ == migrated_action(
                        old_m.schema_version,
                    )
                },
                ManifestState::Corrupt { recovery_path } => {
                    &&& m.created_millis == now
                    &&& m.last_migrated_millis == now
                    &&& rep.previous_version is None
                    &&& rep.created
                    &&& !rep.migrated
                    &&& rep.recovered_corrupt_manifest matches Some(p) && p@ == recovery_path@
                    &&& rep.actions@.len() == 1
                    &&& rep.actions@[0]@ == moved_prefix() + recovery_path@
                },
                ManifestState::Missing { legacy_local_storage } => {
                    &&& m.created_millis == now
                    &&& m.last_migrated_millis == now
                    &&& rep.previous_version == (if legacy_local_storage {
                        Some(1u32)
                    } else {
                        None
                    })
                    &&& rep.created
                    &&& rep.migrated == legacy_local_storage
                    &&& rep.recovered_corrupt_manifest is None
                    &&& rep.actions@.len() == (if legacy_local_storage {
                        1int
                    } else {
                        0
                    })
                    &&& legacy_local_storage ==> rep.actions@[0]@ == legacy_action()
                },
            }
        },
{
    let mut report = ProfileMigrationReport {
        profile_dir,
        previous_version: None,
        current_version: PROFILE_SCHEMA_VERSION,
        created: false,
        migrated: false,
        recovered_corrupt_manifest: None,
        actions: Vec::new(),
    };
    let mut manifest = match state {
        ManifestState::Loaded(m) => {
            report.previous_version = Some(m.schema_version);
            m
        },
        ManifestState::Corrupt { recovery_path } => {
            let mut action = String::from_str("moved corrupt profile manifest to ");
            append_str(&mut action, recovery_path.as_str());
            report.recovered_corrupt_manifest = Some(recovery_path);
            report.actions.push(action);
            report.created = true;
            ProfileManifest::new(now)
        },
        ManifestState::Missing { legacy_local_storage } => {
            report.created = true;
            if legacy_local_storage {
                report.previous_version = Some(1);
                report.migrated = true;
                report.actions.push(
                    String::from_str("adopted legacy local-storage profile as schema 1"),
                );
            }
            ProfileManifest::new(now)
        },
    };
    if manifest.schema_version > PROFILE_SCHEMA_VERSION {
        return Err(
            ProfileError::FutureVersion {
                found: manifest.schema_version,
                supported: PROFILE_SCHEMA_VERSION,
            },
        );
    }
    if manifest.schema_version < PROFILE_SCHEMA_VERSION {
        report.previous_version = Some(manifest.schema_version);
        report.migrated = true;
        let mut action = String::from_str("migrated profile schema ");
        let from = u64_to_decimal(manifest.schema_version as u64);
        append_str(&mut action, from.as_str());
        append_str(&mut action, " to ");
        let to = u64_to_decimal(PROFILE_SCHEMA_VERSION as u64);
        append_str(&mut action, to.as_str());
        report.actions.push(action);
        manifest.schema_version = PROFILE_SCHEMA_VERSION;
        manifest.last_migrated_millis = now;
    }
    manifest.engine_version = engine_version_string();
    Ok((manifest, report))
}

} // verus!

//! Maven (`pom.xml`) and Gradle (`build.gradle[.kts]`) coordinates,
//! each field found by a regular expression over the manifest text.

use vstd::prelude::*;

use super::csproj::{first_group, first_group_exec, first_group_trimmed, opt_string_is};
use super::{
    is_fresh_workspace, only_slot_changed, prior_workspace, workspace_slot, workspace_slot_exec,
    ConfigContext, JvmCoords, WorkspaceConfig,
};
use crate::text::to_chars;

verus! {

pub const POM_GROUP_PATTERN: &'static str = r"(?s)<\s*groupId\s*>([^<]+)<\s*/\s*groupId\s*>";

pub const POM_ARTIFACT_PATTERN: &'static str =
    r"(?s)<\s*artifactId\s*>([^<]+)<\s*/\s*artifactId\s*>";

/// Gradle: `group = "com.example"` or `group 'com.example'`.
pub const GRADLE_GROUP_PATTERN: &'static str = r#"(?m)^\s*group\s*[=]?\s*['"]([^'"]+)['"]"#;

/// Gradle: `rootProject.name = "x"` or `archivesBaseName = "x"`.
pub const GRADLE_ARTIFACT_PATTERN: &'static str =
    r#"(?m)^\s*(?:rootProject\.name|archivesBaseName)\s*[=]?\s*['"]([^'"]+)['"]"#;

pub open spec fn coords_are(c: JvmCoords, group: Option<Seq<char>>, artifact: Option<Seq<char>>) -> bool {
    opt_string_is(c.group_id, group) && opt_string_is(c.artifact_id, artifact)
}

/// Coordinates of a `pom.xml` source: the first `groupId` and
/// `artifactId` elements, trimmed.
pub fn extract_pom_coords(src: &str) -> (r: JvmCoords)
    ensures
        coords_are(
            r,
            first_group_trimmed(POM_GROUP_PATTERN@, src@),
            first_group_trimmed(POM_ARTIFACT_PATTERN@, src@),
        ),
{
    JvmCoords {
        group_id: first_group_exec(POM_GROUP_PATTERN, src, true),
        artifact_id: first_group_exec(POM_ARTIFACT_PATTERN, src, true),
    }
}

/// Coordinates of a Gradle build script, untrimmed.
pub fn extract_gradle_coords(src: &str) -> (r: JvmCoords)
    ensures
        coords_are(
            r,
            first_group(GRADLE_GROUP_PATTERN@, src@),
            first_group(GRADLE_ARTIFACT_PATTERN@, src@),
        ),
{
    JvmCoords {
        group_id: first_group_exec(GRADLE_GROUP_PATTERN, src, false),
        artifact_id: first_group_exec(GRADLE_ARTIFACT_PATTERN, src, false),
    }
}

/// The coordinates a manifest named `file_name` declares: `pom.xml` is
/// read as Maven, anything else as Gradle.
pub open spec fn manifest_coords(file_name: Seq<char>, src: Seq<char>) -> (Option<Seq<char>>, Option<Seq<char>>) {
    if file_name == "pom.xml"@ {
        (
            first_group_trimmed(POM_GROUP_PATTERN@, src),
            first_group_trimmed(POM_ARTIFACT_PATTERN@, src),
        )
    } else {
        (first_group(GRADLE_GROUP_PATTERN@, src), first_group(GRADLE_ARTIFACT_PATTERN@, src))
    }
}

/// Record the JVM coordinates of a manifest on the workspace rooted at
/// `workspace_root`, when it declares a group or an artifact.
pub fn load(file_name: &str, src: &str, workspace_root: &str, ctx: &mut ConfigContext)
    ensures
        ({
            let (g, a) = manifest_coords(file_name@, src@);
            if g is None && a is None {
                *final(ctx) == *old(ctx)
            } else {
                let slot = workspace_slot(old(ctx).workspaces@, workspace_root@);
                let w = final(ctx).workspaces@[slot];
                &&& only_slot_changed(old(ctx).workspaces@, final(ctx).workspaces@, workspace_root@)
                &&& w.jvm_coords matches Some(c) && coords_are(c, g, a)
                &&& match prior_workspace(old(ctx).workspaces@, workspace_root@) {
                    Some(p) => w == (WorkspaceConfig { jvm_coords: w.jvm_coords, ..p }),
                    None => is_fresh_workspace(
                        WorkspaceConfig { jvm_coords: None, ..w },
                        workspace_root@,
                    ),
                }
            }
        }),
{
    let name = to_chars(file_name);
    let coords = if crate::text::str_eq_chars("pom.xml", name.as_slice()) {
        extract_pom_coords(src)
    } else {
        extract_gradle_coords(src)
    };
    if coords.group_id.is_some() || coords.artifact_id.is_some() {
        let i = workspace_slot_exec(ctx, workspace_root);
        ctx.workspaces[i].jvm_coords = Some(coords);
    }
}

} // verus!

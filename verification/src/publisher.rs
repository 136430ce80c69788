//! Publishing: the package name a registry expects, what a publish run
//! does, and which files go into the published tarball.

use vstd::prelude::*;

use crate::error::{EspmError, EspmErrorView};
use crate::paths::{join_path, spec_join, spec_package_key};
use crate::specifier::{opt_str_view, opt_view};
use crate::text::{chars_of, count_leading, str_eq, strip_leading, strip_trailing, substring, trim_start_char};

verus! {

/// The name under which a package is published: `@scope/name` (leading `@`s
/// of the scope dropped) or, on npm only, `name`; JSR needs a scope.
pub open spec fn spec_registry_package_name(scope: Option<Seq<char>>, name: Seq<char>, use_npm: bool) -> Result<Seq<char>, EspmErrorView> {
    if use_npm || scope is Some {
        Ok(spec_package_key(scope, name))
    } else {
        Err(EspmErrorView::JsrScopeRequired(name))
    }
}

/// The package name to publish under.
pub fn package_name_for_registry(scope: Option<&str>, name: &str, use_npm: bool) -> (r: Result<String, EspmError>)
    ensures
        crate::versions::str_result_view(r) == spec_registry_package_name(opt_str_view(scope), name@, use_npm),
{
    if !use_npm && scope.is_none() {
        return Err(EspmError::JsrScopeRequired(name.to_owned()));
    }
    Ok(crate::paths::package_key(scope, name))
}

/// What a publish run does.
#[derive(Debug, Clone, PartialEq, Eq)]
pub enum PublishPlan {
    /// Write the tarball to `output_path` and report `display` (name and version).
    DryRun { output_path: String, display: String },
    /// Send the tarball for `package_name` to `registry_base`, with the
    /// token from the environment variable `token_var`.
    Upload { package_name: String, registry_base: String, token_var: String },
}

/// The mathematical form of a [`PublishPlan`].
pub enum PublishPlanView {
    DryRun { output_path: Seq<char>, display: Seq<char> },
    Upload { package_name: Seq<char>, registry_base: Seq<char>, token_var: Seq<char> },
}

impl View for PublishPlan {
    type V = PublishPlanView;

    open spec fn view(&self) -> PublishPlanView {
        match self {
            PublishPlan::DryRun { output_path, display } => PublishPlanView::DryRun {
                output_path: output_path@,
                display: display@,
            },
            PublishPlan::Upload { package_name, registry_base, token_var } => PublishPlanView::Upload {
                package_name: package_name@,
                registry_base: registry_base@,
                token_var: token_var@,
            },
        }
    }
}

/// The plan of publishing the package `scope`/`name` at `version` from `dir`.
pub open spec fn spec_publish_plan(
    dir: Seq<char>,
    scope: Option<Seq<char>>,
    name: Seq<char>,
    version: Option<Seq<char>>,
    use_npm: bool,
    dry_run: bool,
) -> Result<PublishPlanView, EspmErrorView> {
    match spec_registry_package_name(scope, name, use_npm) {
        Err(e) => Err(e),
        Ok(package_name) => if dry_run {
            Ok(
                PublishPlanView::DryRun {
                    output_path: spec_join(dir, "espm-publish.tgz"@),
                    display: package_name + match version {
                        Some(v) => "@"@ + v,
                        None => Seq::empty(),
                    },
                },
            )
        } else {
            Ok(
                PublishPlanView::Upload {
                    package_name,
                    registry_base: if use_npm {
                        "https://registry.npmjs.org/"@
                    } else {
                        "https://npm.jsr.io/"@
                    },
                    token_var: if use_npm {
                        "NPM_TOKEN"@
                    } else {
                        "JSR_TOKEN"@
                    },
                },
            )
        },
    }
}

/// Plans a publish run from the manifest's scope, name and version.
pub fn publish_plan(dir: &str, scope: Option<&str>, name: &str, version: Option<&str>, use_npm: bool, dry_run: bool) -> (r: Result<PublishPlan, EspmError>)
    ensures
        match r {
            Ok(p) => spec_publish_plan(dir@, opt_str_view(scope), name@, opt_str_view(version), use_npm, dry_run)
                == Ok::<PublishPlanView, EspmErrorView>(p@),
            Err(e) => spec_publish_plan(dir@, opt_str_view(scope), name@, opt_str_view(version), use_npm, dry_run)
                == Err::<PublishPlanView, EspmErrorView>(e@),
        },
{
    let package_name = match package_name_for_registry(scope, name, use_npm) {
        Ok(n) => n,
        Err(e) => return Err(e),
    };
    if dry_run {
        let output_path = join_path(dir, "espm-publish.tgz");
        let mut display = package_name;
        match version {
            Some(v) => {
                let ghost before = display@;
                display.append("@");
                display.append(v);
                assert(display@ =~= before + ("@"@ + v@));
            },
            None => {
                assert(display@ =~= display@ + Seq::<char>::empty());
            },
        }
        Ok(PublishPlan::DryRun { output_path, display })
    } else {
        let registry_base = if use_npm {
            "https://registry.npmjs.org/".to_owned()
        } else {
            "https://npm.jsr.io/".to_owned()
        };
        let token_var = if use_npm {
            "NPM_TOKEN".to_owned()
        } else {
            "JSR_TOKEN".to_owned()
        };
        Ok(PublishPlan::Upload { package_name, registry_base, token_var })
    }
}

/// The URL to which a package is sent: the registry base without trailing
/// `/`, a `/`, and the package name without leading `/`.
pub open spec fn spec_upload_url(registry_base: Seq<char>, package_name: Seq<char>) -> Seq<char> {
    strip_trailing(registry_base, '/') + "/"@ + strip_leading(package_name, '/')
}

proof fn lemma_strip_trailing_step(s: Seq<char>, j: int)
    requires
        0 < j <= s.len(),
        s[j - 1] == '/',
    ensures
        strip_trailing(s.subrange(0, j), '/') == strip_trailing(s.subrange(0, j - 1), '/'),
{
    assert(s.subrange(0, j).drop_last() =~= s.subrange(0, j - 1));
}

/// The URL to which a package is sent.
pub fn registry_upload_url(registry_base: &str, package_name: &str) -> (r: String)
    ensures
        r@ == spec_upload_url(registry_base@, package_name@),
{
    let b = chars_of(registry_base);
    let mut j: usize = b.len();
    assert(b@.subrange(0, b@.len() as int) =~= b@);
    while j > 0 && b[j - 1] == '/'
        invariant
            j <= b@.len(),
            strip_trailing(b@.subrange(0, j as int), '/') == strip_trailing(b@, '/'),
        decreases j,
    {
        proof { lemma_strip_trailing_step(b@, j as int); }
        j = j - 1;
    }
    let mut r = substring(b.as_slice(), 0, j);
    assert(j > 0 ==> b@.subrange(0, j as int).last() == b@[j - 1]);
    assert(strip_trailing(b@.subrange(0, j as int), '/') == b@.subrange(0, j as int));
    r.append("/");
    r.append(trim_start_char(package_name, '/').as_str());
    r
}

/// Whether a directory entry goes into the published tarball: all but
/// `node_modules`, `target` and `.git`.
pub fn is_packable_entry(name: &str) -> (r: bool)
    ensures
        r == !(name@ == "node_modules"@ || name@ == "target"@ || name@ == ".git"@),
{
    !(str_eq(name, "node_modules") || str_eq(name, "target") || str_eq(name, ".git"))
}

/// The path of a file in the published tarball: under `package/`.
pub fn archive_path(relative: &str) -> (r: String)
    ensures
        r@ == spec_join("package"@, relative@),
{
    join_path("package", relative)
}

} // verus!

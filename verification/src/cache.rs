//! Cache lifecycle decisions and page resolution: freshness and update
//! policy, the candidate search order, and the file-composition rule that
//! picks which files form a page.
//!
//! All functions here are pure decisions over plain values; reading the
//! filesystem, the clock and the network is the calling layer's job, which
//! hands the observed facts in and performs the chosen actions.

use vstd::prelude::*;
use vstd::string::{StrSliceExecFns, StringExecFns};
use crate::dedup::{clear_duplicates, dedup_first};
use crate::error::TealdeerError;
use crate::text::str_eq;
use crate::types::OsType;

verus! {

broadcast use vstd::string::group_string_axioms;

/// How long a cache may go without an update before it counts as stale:
/// thirty days, in seconds.
pub const MAX_CACHE_AGE_SECS: u64 = 2592000;

/// Whether the on-disk page cache should be refreshed now.
///
/// The cache is updated when the caller explicitly asks for it, or when
/// automatic updates are enabled and the cache is either missing or older
/// than the configured interval.
pub fn should_update_cache(
    update_requested: bool,
    auto_update: bool,
    auto_update_interval_secs: u64,
    last_update_age_secs: Option<u64>,
) -> (r: bool)
    ensures
        r == (update_requested || (auto_update && (last_update_age_secs is None
            || last_update_age_secs->0 >= auto_update_interval_secs))),
{
    update_requested || (auto_update && match last_update_age_secs {
        None => true,
        Some(age) => age >= auto_update_interval_secs,
    })
}

/// The age of the cache, from its freshness marker and the current time,
/// both as seconds since the epoch. `None` exactly when the cache has never
/// been populated (no marker exists).
pub open spec fn last_update_age_spec(marker_mtime: Option<u64>, now_secs: u64) -> Option<u64> {
    match marker_mtime {
        Option::None => Option::None,
        Option::Some(t) => Option::Some(
            if now_secs >= t {
                (now_secs - t) as u64
            } else {
                0u64
            },
        ),
    }
}

/// Time elapsed since the last successful update, or `None` when the cache
/// has never been populated. A marker in the future counts as age zero.
pub fn last_update_age(marker_mtime: Option<u64>, now_secs: u64) -> (r: Option<u64>)
    ensures
        r == last_update_age_spec(marker_mtime, now_secs),
{
    match marker_mtime {
        None => None,
        Some(t) => Some(
            if now_secs >= t {
                now_secs - t
            } else {
                0
            },
        ),
    }
}

/// The age is absent exactly when the cache has never been populated, and a
/// marker written at the current instant reports an age of zero.
pub proof fn lemma_last_update_age(marker_mtime: Option<u64>, now_secs: u64)
    ensures
        last_update_age_spec(marker_mtime, now_secs) is None <==> marker_mtime is None,
        last_update_age_spec(Option::Some(now_secs), now_secs) == Option::Some(0u64),
{
}

/// The outcome of a freshness check.
#[derive(Clone, Copy, Debug, PartialEq, Eq, Structural)]
pub enum CacheFreshness {
    /// The cache exists and is younger than the allowed age.
    Fresh,
    /// The cache exists but is older than the allowed age, in seconds.
    Stale(u64),
    /// The cache has never been populated.
    Missing,
}

/// Classify the cache's age against the allowed maximum.
pub fn cache_freshness(age_secs: Option<u64>, max_age_secs: u64) -> (r: CacheFreshness)
    ensures
        age_secs is None ==> r == CacheFreshness::Missing,
        age_secs is Some && age_secs->0 > max_age_secs ==> r == CacheFreshness::Stale(
            age_secs->0,
        ),
        age_secs is Some && age_secs->0 <= max_age_secs ==> r == CacheFreshness::Fresh,
{
    match age_secs {
        None => CacheFreshness::Missing,
        Some(age) => if age > max_age_secs {
            CacheFreshness::Stale(age)
        } else {
            CacheFreshness::Fresh
        },
    }
}

/// Where the cache directory came from.
#[derive(Clone, Copy, Debug, PartialEq, Eq, Structural)]
pub enum PathSource {
    /// An environment override chose it.
    EnvVar,
    /// The platform's convention chose it.
    OsConvention,
}

/// Pick the effective cache directory: an environment override wins over the
/// platform default; with neither, the lookup fails with a configuration
/// error.
pub fn cache_dir_choice(env_override: Option<String>, default_dir: Option<String>) -> (r: Result<
    (String, PathSource),
    TealdeerError,
>)
    ensures
        r is Ok <==> (env_override is Some || default_dir is Some),
        r is Ok && env_override is Some ==> r->Ok_0.0@ == env_override->0@ && r->Ok_0.1
            == PathSource::EnvVar,
        r is Ok && env_override is None ==> default_dir is Some && r->Ok_0.0@ == default_dir->0@
            && r->Ok_0.1 == PathSource::OsConvention,
        r is Err ==> r->Err_0 is ConfigError,
{
    match env_override {
        Some(dir) => Ok((dir, PathSource::EnvVar)),
        None => match default_dir {
            Some(dir) => Ok((dir, PathSource::OsConvention)),
            None => Err(
                TealdeerError::ConfigError("Cache directory could not be resolved".to_owned()),
            ),
        },
    }
}

/// The pages directory for a language: `pages` for the default language,
/// `pages.<lang>` otherwise.
pub open spec fn pages_dir_spec(lang: Seq<char>) -> Seq<char> {
    if lang == "en"@ {
        "pages"@
    } else {
        "pages."@ + lang
    }
}

/// The official page's path for a command, relative to the extracted
/// archive's root: `<pages-dir>/<platform>/<command>.md`.
pub open spec fn page_rel_path_spec(
    command: Seq<char>,
    lang: Seq<char>,
    platform: Seq<char>,
) -> Seq<char> {
    pages_dir_spec(lang) + "/"@ + platform + "/"@ + command + ".md"@
}

/// Build the official page's relative path for one language and platform.
pub fn page_rel_path(command: &str, lang: &str, platform: &str) -> (r: String)
    ensures
        r@ == page_rel_path_spec(command@, lang@, platform@),
{
    let mut r: String = if str_eq(lang, "en") {
        "pages".to_owned()
    } else {
        let mut p: String = "pages.".to_owned();
        p.append(lang);
        p
    };
    r.append("/");
    r.append(platform);
    r.append("/");
    r.append(command);
    r.append(".md");
    r
}

/// The file name of a custom full-override page: `<command>.md`.
pub fn custom_page_name(command: &str) -> (r: String)
    ensures
        r@ == command@ + ".md"@,
{
    let mut r: String = command.to_owned();
    r.append(".md");
    r
}

/// The file name of a custom patch page: `<command>.patch.md`.
pub fn custom_patch_name(command: &str) -> (r: String)
    ensures
        r@ == command@ + ".patch.md"@,
{
    let mut r: String = command.to_owned();
    r.append(".patch.md");
    r
}

/// The directory name of a platform's pages.
pub open spec fn platform_dir_spec(os: OsType) -> Seq<char> {
    match os {
        OsType::Linux => "linux"@,
        OsType::OsX => "osx"@,
        OsType::SunOs => "sunos"@,
        OsType::Windows => "windows"@,
        OsType::Other => "common"@,
    }
}

pub fn platform_dir(os: OsType) -> (r: String)
    ensures
        r@ == platform_dir_spec(os),
{
    match os {
        OsType::Linux => "linux".to_owned(),
        OsType::OsX => "osx".to_owned(),
        OsType::SunOs => "sunos".to_owned(),
        OsType::Windows => "windows".to_owned(),
        OsType::Other => "common".to_owned(),
    }
}

/// The official paths probed for one language: the target platform's
/// directory first, then the shared directory of pages common to every
/// platform.
pub open spec fn lang_paths_spec(command: Seq<char>, lang: Seq<char>, os: OsType) -> Seq<
    Seq<char>,
> {
    if os is Other {
        seq![page_rel_path_spec(command, lang, "common"@)]
    } else {
        seq![
            page_rel_path_spec(command, lang, platform_dir_spec(os)),
            page_rel_path_spec(command, lang, "common"@),
        ]
    }
}

/// The official paths probed for a whole language preference list, language
/// by language, in list order.
pub open spec fn official_paths_spec(command: Seq<char>, langs: Seq<Seq<char>>, os: OsType) -> Seq<
    Seq<char>,
>
    decreases langs.len(),
{
    if langs.len() == 0 {
        Seq::empty()
    } else {
        lang_paths_spec(command, langs[0], os) + official_paths_spec(command, langs.drop_first(), os)
    }
}

proof fn lemma_official_paths_push(command: Seq<char>, langs: Seq<Seq<char>>, x: Seq<char>, os: OsType)
    ensures
        official_paths_spec(command, langs.push(x), os) == official_paths_spec(command, langs, os)
            + lang_paths_spec(command, x, os),
    decreases langs.len(),
{
    if langs.len() == 0 {
        assert(langs.push(x).drop_first() =~= langs);
        assert(lang_paths_spec(command, x, os) + official_paths_spec(command, langs, os)
            =~= official_paths_spec(command, langs, os) + lang_paths_spec(command, x, os));
    } else {
        assert(langs.push(x)[0] == langs[0]);
        assert(langs.push(x).drop_first() =~= langs.drop_first().push(x));
        lemma_official_paths_push(command, langs.drop_first(), x, os);
        assert(lang_paths_spec(command, langs[0], os) + (official_paths_spec(
            command,
            langs.drop_first(),
            os,
        ) + lang_paths_spec(command, x, os)) =~= (lang_paths_spec(command, langs[0], os)
            + official_paths_spec(command, langs.drop_first(), os)) + lang_paths_spec(
            command,
            x,
            os,
        ));
    }
}

/// Build, in probe order, the relative paths of every official page that
/// could answer a lookup: languages in preference order, and within each
/// language the target platform's directory before the shared one.
pub fn official_page_paths(command: &str, languages: &Vec<String>, os: OsType) -> (r: Vec<String>)
    ensures
        r.deep_view() == official_paths_spec(command@, languages.deep_view(), os),
{
    let mut r: Vec<String> = Vec::new();
    let mut i: usize = 0;
    proof {
        assert(r.deep_view() =~= official_paths_spec(
            command@,
            languages.deep_view().subrange(0, 0),
            os,
        ));
    }
    while i < languages.len()
        invariant
            i <= languages@.len(),
            r.deep_view() == official_paths_spec(
                command@,
                languages.deep_view().subrange(0, i as int),
                os,
            ),
        decreases languages@.len() - i,
    {
        let lang: &str = languages[i].as_str();
        let ghost pre = r.deep_view();
        let is_other = match os {
            OsType::Other => true,
            _ => false,
        };
        if !is_other {
            let platform = platform_dir(os);
            r.push(page_rel_path(command, lang, platform.as_str()));
        }
        r.push(page_rel_path(command, lang, "common"));
        proof {
            assert(r.deep_view() =~= pre + lang_paths_spec(
                command@,
                languages.deep_view()[i as int],
                os,
            ));
            lemma_official_paths_push(
                command@,
                languages.deep_view().subrange(0, i as int),
                languages.deep_view()[i as int],
                os,
            );
            assert(languages.deep_view().subrange(0, i + 1) =~= languages.deep_view().subrange(
                0,
                i as int,
            ).push(languages.deep_view()[i as int]));
        }
        i = i + 1;
    }
    proof {
        assert(languages.deep_view().subrange(0, languages@.len() as int) =~= languages.deep_view());
    }
    r
}

/// One probed official page: its path and whether the file exists.
#[derive(Debug)]
pub struct PageFact {
    pub path: String,
    pub exists: bool,
}

/// A probed official page, as a mathematical value.
pub struct PageFactModel {
    pub path: Seq<char>,
    pub exists: bool,
}

impl View for PageFact {
    type V = PageFactModel;

    open spec fn view(&self) -> PageFactModel {
        PageFactModel { path: self.path@, exists: self.exists }
    }
}

impl DeepView for PageFact {
    type V = PageFactModel;

    open spec fn deep_view(&self) -> PageFactModel {
        self.view()
    }
}

/// The files that form one page, in the order their contents must be
/// concatenated. Non-empty by construction: one page file, optionally
/// followed by one patch file.
#[derive(Debug, PartialEq, Eq)]
pub struct PageLookupResult {
    pub page_path: String,
    pub patch_path: Option<String>,
}

impl View for PageLookupResult {
    type V = (Seq<char>, Option<Seq<char>>);

    open spec fn view(&self) -> (Seq<char>, Option<Seq<char>>) {
        (
            self.page_path@,
            match self.patch_path {
                Option::Some(p) => Option::Some(p@),
                Option::None => Option::None,
            },
        )
    }
}

impl PageLookupResult {
    /// A page made of one file alone, as for a direct single-file render
    /// request.
    pub fn with_page(page_path: String) -> (r: PageLookupResult)
        ensures
            r@ == (page_path@, Option::<Seq<char>>::None),
    {
        PageLookupResult { page_path, patch_path: None }
    }

    /// Attach (or detach) the patch file appended after the page's content.
    pub fn with_optional_patch(self, patch_path: Option<String>) -> (r: PageLookupResult)
        ensures
            r.page_path@ == self.page_path@,
            r@.1 is Some <==> patch_path is Some,
            patch_path is Some ==> r@.1->0 == patch_path->0@,
    {
        PageLookupResult { page_path: self.page_path, patch_path }
    }

    /// The paths whose contents, read and concatenated in order, form the
    /// complete page: the page file, then the patch file if there is one.
    pub open spec fn paths_spec(&self) -> Seq<Seq<char>> {
        match self.patch_path {
            Option::Some(p) => seq![self.page_path@, p@],
            Option::None => seq![self.page_path@],
        }
    }

    /// The page's files, in concatenation order; never empty.
    pub fn paths(&self) -> (r: Vec<String>)
        ensures
            r.deep_view() == self.paths_spec(),
            r@.len() > 0,
    {
        let mut v: Vec<String> = Vec::new();
        v.push(self.page_path.clone());
        match &self.patch_path {
            Some(p) => {
                v.push(p.clone());
            },
            None => {},
        }
        proof {
            assert(v.deep_view() =~= self.paths_spec());
        }
        v
    }
}

pub open spec fn view_opt_string(o: Option<String>) -> Option<Seq<char>> {
    match o {
        Option::None => Option::None,
        Option::Some(s) => Option::Some(s@),
    }
}

pub open spec fn view_opt_lookup(r: Option<PageLookupResult>) -> Option<
    (Seq<char>, Option<Seq<char>>),
> {
    match r {
        Option::None => Option::None,
        Option::Some(l) => Option::Some(l@),
    }
}

/// The file-composition rule. A custom full-override page, when it exists,
/// is the whole result and official content is ignored; otherwise the first
/// official page that exists answers, with the custom patch file appended
/// after it when one exists; with no official page the lookup misses.
pub open spec fn find_page_spec(
    custom_page: Option<Seq<char>>,
    custom_patch: Option<Seq<char>>,
    officials: Seq<PageFactModel>,
) -> Option<(Seq<char>, Option<Seq<char>>)>
    decreases officials.len(),
{
    match custom_page {
        Option::Some(p) => Option::Some((p, Option::None)),
        Option::None => {
            if officials.len() == 0 {
                Option::None
            } else if officials[0].exists {
                Option::Some((officials[0].path, custom_patch))
            } else {
                find_page_spec(custom_page, custom_patch, officials.drop_first())
            }
        },
    }
}

/// Compose the page for a command from the probed facts: `custom_page` and
/// `custom_patch` are the custom files' paths when those files exist, and
/// `officials` lists every official candidate in probe order, each with
/// whether it exists. A miss (`None`) is a valid outcome, not an error.
pub fn find_page(
    custom_page: Option<String>,
    custom_patch: Option<String>,
    officials: &Vec<PageFact>,
) -> (r: Option<PageLookupResult>)
    ensures
        view_opt_lookup(r) == find_page_spec(
            view_opt_string(custom_page),
            view_opt_string(custom_patch),
            officials.deep_view(),
        ),
{
    if let Some(p) = custom_page {
        return Some(PageLookupResult::with_page(p));
    }
    let ghost pv = view_opt_string(custom_patch);
    let ghost offs = officials.deep_view();
    let n = officials.len();
    let mut i: usize = 0;
    proof {
        assert(offs.subrange(0, n as int) =~= offs);
    }
    while i < n && !officials[i].exists
        invariant
            n == officials@.len(),
            i <= n,
            offs == officials.deep_view(),
            find_page_spec(Option::None, pv, offs) == find_page_spec(
                Option::None,
                pv,
                offs.subrange(i as int, n as int),
            ),
        decreases n - i,
    {
        proof {
            let rem = offs.subrange(i as int, n as int);
            assert(rem[0] == offs[i as int]);
            assert(rem.drop_first() =~= offs.subrange(i + 1, n as int));
        }
        i = i + 1;
    }
    if i < n {
        let page = officials[i].path.clone();
        proof {
            let rem = offs.subrange(i as int, n as int);
            assert(rem[0] == offs[i as int]);
        }
        Some(PageLookupResult { page_path: page, patch_path: custom_patch })
    } else {
        proof {
            assert(offs.subrange(n as int, n as int) =~= Seq::<PageFactModel>::empty());
        }
        None
    }
}

/// Resolution precedence: with a custom full-override page the result is the
/// override alone, whatever else exists; with no override, a custom patch
/// page rides behind the first existing official page, official first.
pub proof fn lemma_resolution_precedence(
    custom_page: Option<Seq<char>>,
    custom_patch: Option<Seq<char>>,
    officials: Seq<PageFactModel>,
)
    ensures
        custom_page is Some ==> find_page_spec(custom_page, custom_patch, officials)
            == Option::Some((custom_page->0, Option::<Seq<char>>::None)),
        custom_page is None && officials.len() > 0 && officials[0].exists ==> find_page_spec(
            custom_page,
            custom_patch,
            officials,
        ) == Option::Some((officials[0].path, custom_patch)),
{
}

/// A lookup misses exactly when there is no custom override and no official
/// candidate exists.
pub proof fn lemma_find_page_misses(
    custom_patch: Option<Seq<char>>,
    officials: Seq<PageFactModel>,
)
    ensures
        find_page_spec(Option::None, custom_patch, officials) is None <==> forall|k: int|
            0 <= k < officials.len() ==> !(#[trigger] officials[k]).exists,
    decreases officials.len(),
{
    if officials.len() == 0 {
    } else if officials[0].exists {
    } else {
        lemma_find_page_misses(custom_patch, officials.drop_first());
        let rest = officials.drop_first();
        assert forall|k: int| 0 <= k < rest.len() implies rest[k] == officials[k + 1] by {}
        if find_page_spec(Option::None, custom_patch, officials) is None {
            assert forall|k: int| 0 <= k < officials.len() implies !(#[trigger] officials[k]).exists by {
                if k > 0 {
                    assert(!rest[k - 1].exists);
                }
            }
        } else {
            let k = choose|k: int| 0 <= k < rest.len() && (#[trigger] rest[k]).exists;
            assert(officials[k + 1].exists);
        }
    }
}

/// The file name stem of every page file (a name ending in `.md`), kept in
/// first-seen order with repeats across platform directories removed.
pub open spec fn is_page_file(name: Seq<char>) -> bool {
    name.len() >= 3 && name[name.len() - 3] == '.' && name[name.len() - 2] == 'm' && name[name.len()
        - 1] == 'd'
}

pub open spec fn page_stems(names: Seq<Seq<char>>) -> Seq<Seq<char>>
    decreases names.len(),
{
    if names.len() == 0 {
        Seq::empty()
    } else {
        (if is_page_file(names[0]) {
            seq![names[0].subrange(0, names[0].len() - 3)]
        } else {
            Seq::empty()
        }) + page_stems(names.drop_first())
    }
}

proof fn lemma_page_stems_push(names: Seq<Seq<char>>, x: Seq<char>)
    ensures
        page_stems(names.push(x)) == page_stems(names) + (if is_page_file(x) {
            seq![x.subrange(0, x.len() - 3)]
        } else {
            Seq::<Seq<char>>::empty()
        }),
    decreases names.len(),
{
    let tail: Seq<Seq<char>> = if is_page_file(x) {
        seq![x.subrange(0, x.len() - 3)]
    } else {
        Seq::empty()
    };
    if names.len() == 0 {
        assert(names.push(x).drop_first() =~= names);
        assert(tail + page_stems(names) =~= page_stems(names) + tail);
    } else {
        assert(names.push(x)[0] == names[0]);
        assert(names.push(x).drop_first() =~= names.drop_first().push(x));
        lemma_page_stems_push(names.drop_first(), x);
        let head: Seq<Seq<char>> = if is_page_file(names[0]) {
            seq![names[0].subrange(0, names[0].len() - 3)]
        } else {
            Seq::empty()
        };
        assert(head + (page_stems(names.drop_first()) + tail) =~= (head + page_stems(
            names.drop_first(),
        )) + tail);
    }
}

/// The command names a list of page file names shows, in first-seen order:
/// every `.md` file's stem, deduplicated.
pub open spec fn page_names_spec(names: Seq<Seq<char>>) -> Seq<Seq<char>> {
    dedup_first(page_stems(names))
}

/// Enumerate the command names present in a list of page file names, as
/// collected across all platform and language subdirectories.
pub fn list_page_names(files: &Vec<String>) -> (r: Vec<String>)
    ensures
        r.deep_view() == page_names_spec(files.deep_view()),
{
    let mut stems: Vec<String> = Vec::new();
    let mut i: usize = 0;
    proof {
        assert(stems.deep_view() =~= page_stems(files.deep_view().subrange(0, 0)));
    }
    while i < files.len()
        invariant
            i <= files@.len(),
            stems.deep_view() == page_stems(files.deep_view().subrange(0, i as int)),
        decreases files@.len() - i,
    {
        let f: &str = files[i].as_str();
        let n = f.unicode_len();
        let ghost pre = stems.deep_view();
        if n >= 3 && f.get_char(n - 3) == '.' && f.get_char(n - 2) == 'm' && f.get_char(n - 1)
            == 'd' {
            stems.push(f.substring_char(0, n - 3).to_owned());
            proof {
                assert(stems.deep_view() =~= pre + seq![f@.subrange(0, f@.len() - 3)]);
            }
        } else {
            proof {
                assert(stems.deep_view() =~= pre + Seq::<Seq<char>>::empty());
            }
        }
        proof {
            lemma_page_stems_push(
                files.deep_view().subrange(0, i as int),
                files.deep_view()[i as int],
            );
            assert(files.deep_view().subrange(0, i + 1) =~= files.deep_view().subrange(
                0,
                i as int,
            ).push(files.deep_view()[i as int]));
        }
        i = i + 1;
    }
    proof {
        assert(files.deep_view().subrange(0, files@.len() as int) =~= files.deep_view());
    }
    clear_duplicates(&stems)
}

} // verus!

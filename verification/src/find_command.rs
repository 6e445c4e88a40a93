//! The resolution pipeline: ordered strategies that turn a window's
//! metadata into a launch specification.
//!
//! Strategies are tried in a fixed order and the first acceptance wins:
//! an exact desktop-file lookup by application id, a lookup by
//! sandboxed application id across the descriptor directories, a
//! whole-string similarity ranking of the window class, a partial-match
//! ranking over alternate search terms, and finally the raw process
//! command line, where policy allows it.

use crate::index::DesktopIndex;
use crate::session::{Exec, ExecView};
use crate::similarity::whole_string_similarity_micros;
use crate::text::{last_component, str_chars};
use crate::window::MetaWindow;
use vstd::prelude::*;

verus! {

/// A similarity score or threshold, in micros: 1_000_000 stands for 1.0.
/// Partial-match scores may go slightly negative.
pub type Confidence = i64;

/// Policy flags for the privacy-sensitive strategies: whether the
/// process table may be read at all, and whether a raw command line may
/// serve as a last resort.
#[derive(Clone, Copy, Debug, PartialEq, Eq, Structural)]
pub enum Capability {
    ProcFsSearch,
    UseProcFsCommand,
}

/// Configuration of one resolution: the acceptance thresholds and the
/// granted capabilities. Never mutated by the resolver.
#[derive(Clone, Debug)]
pub struct FindOptions {
    pub min_wm_class_similarity: Confidence,
    pub min_partial_match_confidence: Confidence,
    pub capabilities: Vec<Capability>,
}

impl FindOptions {
    /// Whether a capability was granted.
    pub open spec fn allows(&self, c: Capability) -> bool {
        self.capabilities@.contains(c)
    }
}

/// Why a resolution failed. Failures of single strategies stay
/// internal; only the error of a fully exhausted pipeline surfaces.
#[derive(Clone, Copy, Debug, PartialEq, Eq, Structural)]
pub enum FindError {
    /// Reading the process record failed unexpectedly.
    IOError,
    /// No strategy produced a candidate that met its threshold.
    NoSuitableEntryFound,
    /// The process argument record was empty.
    ProcessIsZombie,
    /// Policy forbade reading process arguments and nothing else
    /// succeeded.
    ProcSearchDisabledNoOtherOptionFound,
    /// A process argument vector was available, but policy forbids
    /// using it as a launch command.
    NotAllowedToUseProcCmdNoOtherOptionFound,
}

/// The mathematical value of a resolution result.
pub open spec fn result_view(r: Result<Exec, FindError>) -> Result<ExecView, FindError> {
    match r {
        Ok(e) => Ok(e@),
        Err(x) => Err(x),
    }
}

/// The mathematical value of a process-inspection outcome.
pub open spec fn proc_view(p: Result<Vec<String>, FindError>) -> Result<
    Seq<Seq<char>>,
    FindError,
> {
    match p {
        Ok(args) => Ok(args.deep_view()),
        Err(e) => Err(e),
    }
}

/// What lowercasing a string yields. The result depends on the
/// characters alone.
pub uninterp spec fn lower_of(s: Seq<char>) -> Seq<char>;

/// Relies on str::to_lowercase: the lowercase equivalent of the given
/// characters, a function of the characters alone.
#[verifier::external_body]
fn lowercase_chars(s: &Vec<char>) -> (r: Vec<char>)
    ensures
        r@ == lower_of(s@),
{
    let owned: String = s.iter().collect();
    owned.to_lowercase().chars().collect()
}

/// The first two capture groups of the pattern's first match in the
/// text, or nothing when the pattern does not compile or does not
/// match. The result depends on pattern and text alone.
pub uninterp spec fn captures_two_of(pattern: Seq<char>, text: Seq<char>) -> Option<
    (Seq<char>, Seq<char>),
>;

/// Relies on regex::Regex::new and regex::Regex::captures: the first
/// two capture groups of the pattern's first match in the text.
#[verifier::external_body]
fn regex_captures_pair(pattern: &str, text: &str) -> (r: Option<(String, String)>)
    ensures
        match r {
            Some(p) => captures_two_of(pattern@, text@) == Some((p.0@, p.1@)),
            None => captures_two_of(pattern@, text@) is None,
        },
{
    let re = regex::Regex::new(pattern).ok()?;
    let c = re.captures(text)?;
    let a = c.get(1)?.as_str().to_string();
    let b = c.get(2)?.as_str().to_string();
    Some((a, b))
}

/// Whether one of the strings in `v` holds exactly the characters of
/// `x`.
fn contains_string(v: &Vec<String>, x: &String) -> (r: bool)
    ensures
        r == v.deep_view().contains(x@),
{
    let n = v.len();
    let mut i: usize = 0;
    while i < n
        invariant
            i <= n,
            n == v@.len(),
            forall|k: int| 0 <= k < i ==> v.deep_view()[k] != x@,
        decreases n - i,
    {
        if v[i].eq(x) {
            proof {
                assert(v.deep_view()[i as int] == x@);
            }
            return true;
        }
        i = i + 1;
    }
    proof {
        if v.deep_view().contains(x@) {
            let k = choose|k: int| 0 <= k < v.deep_view().len() && v.deep_view()[k] == x@;
            assert(false);
        }
    }
    false
}

/// The system-wide descriptor path that a bare application id names.
pub open spec fn gtk_desktop_path(id: Seq<char>) -> Seq<char> {
    "/usr/share/applications/"@ + id + ".desktop"@
}

/// What the lookup by application id yields: the system-wide descriptor
/// path when the index holds it, and no suitable entry otherwise.
pub open spec fn find_by_gtk_app_id_spec(id: Seq<char>, files: Seq<Seq<char>>) -> Result<
    ExecView,
    FindError,
> {
    if files.contains(gtk_desktop_path(id)) {
        Ok(ExecView::DesktopFile(gtk_desktop_path(id)))
    } else {
        Err(FindError::NoSuitableEntryFound)
    }
}

/// Looks the application id up as a descriptor file under the
/// system-wide application directory.
pub fn try_find_command_by_gtk_app_id(gtk_app_id: &str, index: &DesktopIndex) -> (r: Result<
    Exec,
    FindError,
>)
    ensures
        result_view(r) == find_by_gtk_app_id_spec(gtk_app_id@, index.files.deep_view()),
{
    let mut p = String::new();
    p.append("/usr/share/applications/");
    p.append(gtk_app_id);
    p.append(".desktop");
    proof {
        assert(p@ == gtk_desktop_path(gtk_app_id@));
    }
    if contains_string(&index.files, &p) {
        Ok(Exec::DesktopFile(p))
    } else {
        Err(FindError::NoSuitableEntryFound)
    }
}

/// The descriptor file name a sandboxed application id names.
pub open spec fn sandboxed_desktop_name(id: Seq<char>) -> Seq<char> {
    id + ".desktop"@
}

/// The first directory, in search order, whose descriptor file for
/// `name` the index holds; the full path of that file.
pub open spec fn first_location_hit(
    locations: Seq<Seq<char>>,
    files: Seq<Seq<char>>,
    name: Seq<char>,
) -> Option<Seq<char>>
    decreases locations.len(),
{
    if locations.len() == 0 {
        None
    } else {
        let p = locations.first() + "/"@ + name;
        if files.contains(p) {
            Some(p)
        } else {
            first_location_hit(locations.drop_first(), files, name)
        }
    }
}

/// What the lookup by sandboxed application id yields.
pub open spec fn find_by_sandboxed_app_id_spec(
    id: Seq<char>,
    locations: Seq<Seq<char>>,
    files: Seq<Seq<char>>,
) -> Result<ExecView, FindError> {
    match first_location_hit(locations, files, sandboxed_desktop_name(id)) {
        Some(p) => Ok(ExecView::DesktopFile(p)),
        None => Err(FindError::NoSuitableEntryFound),
    }
}

/// Looks the sandboxed application id up as a descriptor file across
/// every descriptor directory, in search order; the first hit wins.
pub fn try_find_command_by_sandboxed_app_id(sandboxed_app_id: &str, index: &DesktopIndex) -> (r:
    Result<Exec, FindError>)
    ensures
        result_view(r) == find_by_sandboxed_app_id_spec(
            sandboxed_app_id@,
            index.locations.deep_view(),
            index.files.deep_view(),
        ),
{
    let ghost locs = index.locations.deep_view();
    let ghost files = index.files.deep_view();
    let ghost name = sandboxed_desktop_name(sandboxed_app_id@);
    let n = index.locations.len();
    let mut i: usize = 0;
    proof {
        assert(locs.skip(0) =~= locs);
    }
    while i < n
        invariant
            i <= n,
            n == locs.len(),
            locs == index.locations.deep_view(),
            files == index.files.deep_view(),
            name == sandboxed_desktop_name(sandboxed_app_id@),
            first_location_hit(locs, files, name) == first_location_hit(
                locs.skip(i as int),
                files,
                name,
            ),
        decreases n - i,
    {
        proof {
            assert(locs.skip(i as int).first() == locs[i as int]);
            assert(locs.skip(i as int).drop_first() =~= locs.skip(i + 1));
        }
        let mut p = index.locations[i].clone();
        p.append("/");
        p.append(sandboxed_app_id);
        proof {
            assert(p@ == locs[i as int] + "/"@ + sandboxed_app_id@);
        }
        p.append(".desktop");
        proof {
            assert(p@ =~= locs[i as int] + "/"@ + name);
        }
        if contains_string(&index.files, &p) {
            return Ok(Exec::DesktopFile(p));
        }
        i = i + 1;
    }
    proof {
        assert(locs.skip(n as int) =~= Seq::<Seq<char>>::empty());
    }
    Err(FindError::NoSuitableEntryFound)
}

/// The mathematical value of a scored resolution result.
pub open spec fn scored_view(r: Result<(Exec, Confidence), FindError>) -> Result<
    (ExecView, int),
    FindError,
> {
    match r {
        Ok(p) => Ok((p.0@, p.1 as int)),
        Err(x) => Err(x),
    }
}

spec fn best_view(o: Option<(String, i64)>) -> Option<(Seq<char>, int)> {
    match o {
        Some(p) => Some((p.0@, p.1 as int)),
        None => None,
    }
}

/// Whole-string similarity of the lowercased window class against the
/// lowercased stem of a descriptor file.
pub open spec fn wm_class_score(wc: Seq<char>, file: Seq<char>) -> int {
    whole_string_similarity_micros(lower_of(wc), lower_of(crate::text::stem_of_path(file)))
}

/// The best-scoring descriptor file under the whole-string measure; on
/// equal scores the earlier file is kept.
pub open spec fn best_wm_candidate(wc: Seq<char>, files: Seq<Seq<char>>) -> Option<
    (Seq<char>, int),
>
    decreases files.len(),
{
    if files.len() == 0 {
        None
    } else {
        let prev = best_wm_candidate(wc, files.drop_last());
        let sc = wm_class_score(wc, files.last());
        match prev {
            None => Some((files.last(), sc)),
            Some(p) => if sc > p.1 {
                Some((files.last(), sc))
            } else {
                Some(p)
            },
        }
    }
}

/// What ranking the window class against every descriptor file yields:
/// the best candidate with its confidence, or no suitable entry when
/// the index is empty.
pub open spec fn find_by_wm_class_spec(wc: Seq<char>, files: Seq<Seq<char>>) -> Result<
    (ExecView, int),
    FindError,
> {
    match best_wm_candidate(wc, files) {
        Some(p) => Ok((ExecView::DesktopFile(p.0), p.1)),
        None => Err(FindError::NoSuitableEntryFound),
    }
}

/// Ranks every descriptor file's stem against the window class by
/// whole-string similarity and returns the best with its confidence.
pub fn try_find_command_by_wm_class(wm_class: &str, index: &DesktopIndex) -> (r: Result<
    (Exec, Confidence),
    FindError,
>)
    ensures
        scored_view(r) == find_by_wm_class_spec(wm_class@, index.files.deep_view()),
{
    let ghost files = index.files.deep_view();
    let wc_l = lowercase_chars(&str_chars(wm_class));
    let n = index.files.len();
    let mut best: Option<(String, i64)> = None;
    let mut i: usize = 0;
    while i < n
        invariant
            i <= n,
            n == files.len(),
            files == index.files.deep_view(),
            wc_l@ == lower_of(wm_class@),
            best_view(best) == best_wm_candidate(wm_class@, files.take(i as int)),
        decreases n - i,
    {
        proof {
            assert(files.take(i + 1).drop_last() =~= files.take(i as int));
            assert(files.take(i + 1).last() == files[i as int]);
        }
        let stem = crate::text::stem_of_name_chars(
            &crate::text::last_component_chars(&str_chars(index.files[i].as_str())),
        );
        let stem_l = lowercase_chars(&stem);
        let sc = crate::similarity::whole_string_similarity(&wc_l, &stem_l);
        let better = match &best {
            None => true,
            Some(p) => sc > p.1,
        };
        if better {
            best = Some((index.files[i].clone(), sc));
        }
        i = i + 1;
    }
    proof {
        assert(files.take(n as int) =~= files);
    }
    match best {
        Some(p) => Ok((Exec::DesktopFile(p.0), p.1)),
        None => Err(FindError::NoSuitableEntryFound),
    }
}

/// Partial-match score of a search term against a descriptor file, both
/// lowercased. Inputs beyond the scoring length cap are not scored.
pub open spec fn search_term_score(term: Seq<char>, file: Seq<char>) -> Option<int> {
    if lower_of(term).len() <= crate::partial_match::MAX_SCORED_LEN && lower_of(
        crate::text::stem_of_path(file),
    ).len() <= crate::partial_match::MAX_SCORED_LEN {
        Some(
            crate::partial_match::partial_match_micros(
                lower_of(term),
                lower_of(crate::text::stem_of_path(file)),
            ),
        )
    } else {
        None
    }
}

/// The best-scoring descriptor file under the partial-match measure; on
/// equal scores the earlier file is kept.
pub open spec fn best_search_candidate(term: Seq<char>, files: Seq<Seq<char>>) -> Option<
    (Seq<char>, int),
>
    decreases files.len(),
{
    if files.len() == 0 {
        None
    } else {
        let prev = best_search_candidate(term, files.drop_last());
        match search_term_score(term, files.last()) {
            None => prev,
            Some(sc) => match prev {
                None => Some((files.last(), sc)),
                Some(p) => if sc > p.1 {
                    Some((files.last(), sc))
                } else {
                    Some(p)
                },
            },
        }
    }
}

/// What ranking one search term against every descriptor file yields.
pub open spec fn find_by_search_term_spec(term: Seq<char>, files: Seq<Seq<char>>) -> Result<
    (ExecView, int),
    FindError,
> {
    match best_search_candidate(term, files) {
        Some(p) => Ok((ExecView::DesktopFile(p.0), p.1)),
        None => Err(FindError::NoSuitableEntryFound),
    }
}

fn best_by_search_term(term: &Vec<char>, index: &DesktopIndex) -> (r: Option<(String, i64)>)
    ensures
        best_view(r) == best_search_candidate(term@, index.files.deep_view()),
{
    let ghost files = index.files.deep_view();
    let term_l = lowercase_chars(term);
    let n = index.files.len();
    let mut best: Option<(String, i64)> = None;
    let mut i: usize = 0;
    while i < n
        invariant
            i <= n,
            n == files.len(),
            files == index.files.deep_view(),
            term_l@ == lower_of(term@),
            best_view(best) == best_search_candidate(term@, files.take(i as int)),
        decreases n - i,
    {
        proof {
            assert(files.take(i + 1).drop_last() =~= files.take(i as int));
            assert(files.take(i + 1).last() == files[i as int]);
        }
        let stem = crate::text::stem_of_name_chars(
            &crate::text::last_component_chars(&str_chars(index.files[i].as_str())),
        );
        let stem_l = lowercase_chars(&stem);
        if term_l.len() <= crate::partial_match::MAX_SCORED_LEN && stem_l.len()
            <= crate::partial_match::MAX_SCORED_LEN {
            let sc = crate::partial_match::partial_match_chars(&term_l, &stem_l);
            let better = match &best {
                None => true,
                Some(p) => sc > p.1,
            };
            if better {
                best = Some((index.files[i].clone(), sc));
            }
        }
        i = i + 1;
    }
    proof {
        assert(files.take(n as int) =~= files);
    }
    best
}

/// Ranks every descriptor file's stem against a search term by the
/// partial-match similarity and returns the best with its confidence.
pub fn try_find_command_by_search_term(search_term: &str, index: &DesktopIndex) -> (r: Result<
    (Exec, Confidence),
    FindError,
>)
    ensures
        scored_view(r) == find_by_search_term_spec(search_term@, index.files.deep_view()),
{
    match best_by_search_term(&str_chars(search_term), index) {
        Some(p) => Ok((Exec::DesktopFile(p.0), p.1)),
        None => Err(FindError::NoSuitableEntryFound),
    }
}

/// The pattern that recognizes site-specific browser shortcuts: a
/// `chrome-` prefix, the site, a double underscore, and a profile after
/// the last dash.
pub open spec fn chrome_app_pattern() -> Seq<char> {
    "chrome-(.+?)__.*?-(.+)"@
}

/// The process-inspection outcome as the pipeline sees it: gated by the
/// process-search capability, and an argument vector that came back
/// empty counted as a zombie record, so that no empty command line can
/// ever be emitted.
pub open spec fn normalized_proc(opts: FindOptions, proc: Result<Seq<Seq<char>>, FindError>)
    -> Result<Seq<Seq<char>>, FindError> {
    if opts.allows(Capability::ProcFsSearch) {
        match proc {
            Ok(args) => if args.len() == 0 {
                Err(FindError::ProcessIsZombie)
            } else {
                Ok(args)
            },
            Err(e) => Err(e),
        }
    } else {
        Err(FindError::ProcSearchDisabledNoOtherOptionFound)
    }
}

/// The binary name taken from the process's first argument, admitted as
/// a search term only when the window class is empty or the name is
/// close enough to it.
pub open spec fn proc_binary_term(wc: Seq<char>, mproc: Result<Seq<Seq<char>>, FindError>)
    -> Option<Seq<char>> {
    match mproc {
        Ok(args) => {
            let b = last_component(args[0]);
            if b.len() > 0 && (wc.len() == 0 || whole_string_similarity_micros(b, wc) > 500000) {
                Some(b)
            } else {
                None
            }
        },
        Err(_) => None,
    }
}

/// The search terms the partial-match strategy tries, in order: the
/// window class when present, the site and profile of a browser
/// shortcut when the class matches the pattern, and the process's
/// binary name when admitted.
pub open spec fn alt_search_terms(wc: Seq<char>, mproc: Result<Seq<Seq<char>>, FindError>)
    -> Seq<Seq<char>> {
    let base: Seq<Seq<char>> = if wc.len() > 0 {
        seq![wc]
    } else {
        Seq::<Seq<char>>::empty()
    };
    let with_chrome = match captures_two_of(chrome_app_pattern(), wc) {
        Some(p) => base.push(p.0).push(p.1),
        None => base,
    };
    match proc_binary_term(wc, mproc) {
        Some(b) => with_chrome.push(b),
        None => with_chrome,
    }
}

/// The best candidate over every search term; on equal confidence the
/// earlier term's candidate is kept.
pub open spec fn best_over_terms(terms: Seq<Seq<char>>, files: Seq<Seq<char>>) -> Option<
    (Seq<char>, int),
>
    decreases terms.len(),
{
    if terms.len() == 0 {
        None
    } else {
        let prev = best_over_terms(terms.drop_last(), files);
        match best_search_candidate(terms.last(), files) {
            None => prev,
            Some(c) => match prev {
                None => Some(c),
                Some(p) => if c.1 > p.1 {
                    Some(c)
                } else {
                    Some(p)
                },
            },
        }
    }
}

/// The last resort: the raw command line where policy allows it, the
/// matching policy error where it does not. A denied process search
/// outranks a denied command-line use, and a failed process read
/// surfaces as its own error.
pub open spec fn resolve_fallback(opts: FindOptions, mproc: Result<Seq<Seq<char>>, FindError>)
    -> Result<ExecView, FindError> {
    if opts.allows(Capability::UseProcFsCommand) {
        match mproc {
            Ok(args) => Ok(ExecView::CmdLine(args)),
            Err(e) => Err(e),
        }
    } else {
        match mproc {
            Err(FindError::ProcSearchDisabledNoOtherOptionFound) => Err(
                FindError::ProcSearchDisabledNoOtherOptionFound,
            ),
            Ok(_) => Err(FindError::NotAllowedToUseProcCmdNoOtherOptionFound),
            Err(e) => Err(e),
        }
    }
}

/// The pipeline from the partial-match strategy on: the best candidate
/// over the alternate search terms where it meets the threshold, the
/// fallback otherwise.
pub open spec fn resolve_after_wm(
    opts: FindOptions,
    wc: Seq<char>,
    files: Seq<Seq<char>>,
    proc: Result<Seq<Seq<char>>, FindError>,
) -> Result<ExecView, FindError> {
    let mproc = normalized_proc(opts, proc);
    match best_over_terms(alt_search_terms(wc, mproc), files) {
        Some(p) => if p.1 >= opts.min_partial_match_confidence {
            Ok(ExecView::DesktopFile(p.0))
        } else {
            resolve_fallback(opts, mproc)
        },
        None => resolve_fallback(opts, mproc),
    }
}

/// The whole pipeline: what resolving a window's metadata against the
/// descriptor index and a process-inspection outcome yields. The first
/// accepting strategy wins; later ones are not consulted.
pub open spec fn resolve_spec(
    opts: FindOptions,
    meta: MetaWindow,
    locations: Seq<Seq<char>>,
    files: Seq<Seq<char>>,
    proc: Result<Seq<Seq<char>>, FindError>,
) -> Result<ExecView, FindError> {
    let gtk = find_by_gtk_app_id_spec(meta.gtk_app_id@, files);
    let sand = find_by_sandboxed_app_id_spec(meta.sandboxed_app_id@, locations, files);
    if meta.gtk_app_id@.len() > 0 && gtk is Ok {
        gtk
    } else if meta.sandboxed_app_id@.len() > 0 && sand is Ok {
        sand
    } else {
        match best_wm_candidate(meta.window_class@, files) {
            Some(p) => if p.1 >= opts.min_wm_class_similarity {
                Ok(ExecView::DesktopFile(p.0))
            } else {
                resolve_after_wm(opts, meta.window_class@, files, proc)
            },
            None => resolve_after_wm(opts, meta.window_class@, files, proc),
        }
    }
}

proof fn lemma_best_wm_in_files(wc: Seq<char>, files: Seq<Seq<char>>)
    ensures
        best_wm_candidate(wc, files) matches Some(p) ==> files.contains(p.0),
    decreases files.len(),
{
    if files.len() != 0 {
        lemma_best_wm_in_files(wc, files.drop_last());
        match best_wm_candidate(wc, files.drop_last()) {
            Some(p) => {
                assert(files.drop_last().contains(p.0) ==> files.contains(p.0)) by {
                    if files.drop_last().contains(p.0) {
                        let k = choose|k: int|
                            0 <= k < files.drop_last().len() && files.drop_last()[k] == p.0;
                        assert(files[k] == p.0);
                    }
                }
            },
            None => {},
        }
        assert(files.contains(files.last()));
    }
}

proof fn lemma_best_search_in_files(term: Seq<char>, files: Seq<Seq<char>>)
    ensures
        best_search_candidate(term, files) matches Some(p) ==> files.contains(p.0),
    decreases files.len(),
{
    if files.len() != 0 {
        lemma_best_search_in_files(term, files.drop_last());
        match best_search_candidate(term, files.drop_last()) {
            Some(p) => {
                assert(files.drop_last().contains(p.0) ==> files.contains(p.0)) by {
                    if files.drop_last().contains(p.0) {
                        let k = choose|k: int|
                            0 <= k < files.drop_last().len() && files.drop_last()[k] == p.0;
                        assert(files[k] == p.0);
                    }
                }
            },
            None => {},
        }
        assert(files.contains(files.last()));
    }
}

proof fn lemma_best_over_terms_in_files(terms: Seq<Seq<char>>, files: Seq<Seq<char>>)
    ensures
        best_over_terms(terms, files) matches Some(p) ==> files.contains(p.0),
    decreases terms.len(),
{
    if terms.len() != 0 {
        lemma_best_over_terms_in_files(terms.drop_last(), files);
        lemma_best_search_in_files(terms.last(), files);
    }
}

proof fn lemma_first_location_hit_in_files(
    locations: Seq<Seq<char>>,
    files: Seq<Seq<char>>,
    name: Seq<char>,
)
    ensures
        first_location_hit(locations, files, name) matches Some(p) ==> files.contains(p),
    decreases locations.len(),
{
    if locations.len() != 0 {
        lemma_first_location_hit_in_files(locations.drop_first(), files, name);
    }
}

/// A resolution never yields an empty command vector: a process record
/// without arguments is a zombie failure, not a launch specification.
pub proof fn lemma_no_empty_cmdline(
    opts: FindOptions,
    meta: MetaWindow,
    locations: Seq<Seq<char>>,
    files: Seq<Seq<char>>,
    proc: Result<Seq<Seq<char>>, FindError>,
)
    ensures
        resolve_spec(opts, meta, locations, files, proc) matches Ok(ExecView::CmdLine(args))
            ==> args.len() > 0,
{
}

/// Every desktop-file result names a file that the index holds.
pub proof fn lemma_desktop_file_from_index(
    opts: FindOptions,
    meta: MetaWindow,
    locations: Seq<Seq<char>>,
    files: Seq<Seq<char>>,
    proc: Result<Seq<Seq<char>>, FindError>,
)
    ensures
        resolve_spec(opts, meta, locations, files, proc) matches Ok(ExecView::DesktopFile(p))
            ==> files.contains(p),
{
    lemma_best_wm_in_files(meta.window_class@, files);
    lemma_first_location_hit_in_files(
        locations,
        files,
        sandboxed_desktop_name(meta.sandboxed_app_id@),
    );
    let mproc = normalized_proc(opts, proc);
    lemma_best_over_terms_in_files(alt_search_terms(meta.window_class@, mproc), files);
}

/// Without the process-search capability the outcome does not depend on
/// the process record at all: the record is never consulted.
pub proof fn lemma_capability_gating(
    opts: FindOptions,
    meta: MetaWindow,
    locations: Seq<Seq<char>>,
    files: Seq<Seq<char>>,
    proc_a: Result<Seq<Seq<char>>, FindError>,
    proc_b: Result<Seq<Seq<char>>, FindError>,
)
    requires
        !opts.allows(Capability::ProcFsSearch),
    ensures
        resolve_spec(opts, meta, locations, files, proc_a) == resolve_spec(
            opts,
            meta,
            locations,
            files,
            proc_b,
        ),
{
}

/// With no capabilities granted at all, a resolution either accepts a
/// desktop file or fails with the process-search-disabled error.
pub proof fn lemma_empty_capabilities_error(
    opts: FindOptions,
    meta: MetaWindow,
    locations: Seq<Seq<char>>,
    files: Seq<Seq<char>>,
    proc: Result<Seq<Seq<char>>, FindError>,
)
    requires
        !opts.allows(Capability::ProcFsSearch),
        !opts.allows(Capability::UseProcFsCommand),
    ensures
        match resolve_spec(opts, meta, locations, files, proc) {
            Ok(e) => e is DesktopFile,
            Err(e) => e == FindError::ProcSearchDisabledNoOtherOptionFound,
        },
{
}

/// Resolution is a pure function of the identifying strings, the
/// policy, the index and the process record: two windows that agree on
/// their window class and application ids resolve alike, whatever their
/// geometry, process id or sequence number, and resolving twice yields
/// the same result.
pub proof fn lemma_resolve_depends_only_on_identifiers(
    opts: FindOptions,
    meta_a: MetaWindow,
    meta_b: MetaWindow,
    locations: Seq<Seq<char>>,
    files: Seq<Seq<char>>,
    proc: Result<Seq<Seq<char>>, FindError>,
)
    requires
        meta_a.window_class@ == meta_b.window_class@,
        meta_a.gtk_app_id@ == meta_b.gtk_app_id@,
        meta_a.sandboxed_app_id@ == meta_b.sandboxed_app_id@,
    ensures
        resolve_spec(opts, meta_a, locations, files, proc) == resolve_spec(
            opts,
            meta_b,
            locations,
            files,
            proc,
        ),
{
}

/// Whether a capability is in the granted set.
pub fn caps_contain(caps: &Vec<Capability>, c: Capability) -> (r: bool)
    ensures
        r == caps@.contains(c),
{
    let n = caps.len();
    let mut i: usize = 0;
    while i < n
        invariant
            i <= n,
            n == caps@.len(),
            forall|k: int| 0 <= k < i ==> caps@[k] != c,
        decreases n - i,
    {
        if caps[i] == c {
            return true;
        }
        i = i + 1;
    }
    proof {
        if caps@.contains(c) {
            let k = choose|k: int| 0 <= k < caps@.len() && caps@[k] == c;
            assert(false);
        }
    }
    false
}

/// Tries the ordered strategies and returns the first acceptance, or
/// the error of the exhausted pipeline. `proc_cmdline` is the outcome
/// of inspecting the window's process; it is consulted only when the
/// process-search capability was granted.
pub fn try_find_command_any(
    options: &FindOptions,
    meta: &MetaWindow,
    index: &DesktopIndex,
    proc_cmdline: Result<Vec<String>, FindError>,
) -> (r: Result<Exec, FindError>)
    ensures
        result_view(r) == resolve_spec(
            *options,
            *meta,
            index.locations.deep_view(),
            index.files.deep_view(),
            proc_view(proc_cmdline),
        ),
{
    let ghost gproc = proc_view(proc_cmdline);
    if !meta.gtk_app_id.as_str().is_empty() {
        if let Ok(exec) = try_find_command_by_gtk_app_id(meta.gtk_app_id.as_str(), index) {
            return Ok(exec);
        }
    }
    if !meta.sandboxed_app_id.as_str().is_empty() {
        if let Ok(exec) = try_find_command_by_sandboxed_app_id(
            meta.sandboxed_app_id.as_str(),
            index,
        ) {
            return Ok(exec);
        }
    }
    match try_find_command_by_wm_class(meta.window_class.as_str(), index) {
        Ok(p) => {
            if p.1 >= options.min_wm_class_similarity {
                return Ok(p.0);
            }
        },
        Err(_) => {},
    }
    let mproc: Result<Vec<String>, FindError> = if caps_contain(
        &options.capabilities,
        Capability::ProcFsSearch,
    ) {
        match proc_cmdline {
            Ok(args) => if args.len() == 0 {
                Err(FindError::ProcessIsZombie)
            } else {
                Ok(args)
            },
            Err(e) => Err(e),
        }
    } else {
        Err(FindError::ProcSearchDisabledNoOtherOptionFound)
    };
    proof {
        assert(proc_view(mproc) == normalized_proc(*options, gproc));
    }
    let wc_str = meta.window_class.as_str();
    let ghost wc = meta.window_class@;
    let mut terms: Vec<Vec<char>> = Vec::new();
    if !wc_str.is_empty() {
        let t = str_chars(wc_str);
        proof {
            crate::text::lemma_vec_char_deep_view(t);
        }
        terms.push(t);
    }
    match regex_captures_pair("chrome-(.+?)__.*?-(.+)", wc_str) {
        Some(pair) => {
            let t0 = str_chars(pair.0.as_str());
            let t1 = str_chars(pair.1.as_str());
            proof {
                crate::text::lemma_vec_char_deep_view(t0);
                crate::text::lemma_vec_char_deep_view(t1);
            }
            terms.push(t0);
            terms.push(t1);
        },
        None => {},
    }
    match &mproc {
        Ok(args) => {
            let b = crate::text::last_component_chars(&str_chars(args[0].as_str()));
            if b.len() > 0 {
                let admitted = if wc_str.is_empty() {
                    true
                } else {
                    crate::similarity::whole_string_similarity(&b, &str_chars(wc_str)) > 500000
                };
                if admitted {
                    proof {
                        crate::text::lemma_vec_char_deep_view(b);
                    }
                    terms.push(b);
                }
            }
        },
        Err(_) => {},
    }
    proof {
        assert(terms.deep_view() =~= alt_search_terms(wc, proc_view(mproc)));
    }
    let ghost gterms = terms.deep_view();
    let nt = terms.len();
    let mut best: Option<(String, i64)> = None;
    let mut k: usize = 0;
    while k < nt
        invariant
            k <= nt,
            nt == gterms.len(),
            gterms == terms.deep_view(),
            best_view(best) == best_over_terms(
                gterms.take(k as int),
                index.files.deep_view(),
            ),
        decreases nt - k,
    {
        proof {
            assert(gterms.take(k + 1).drop_last() =~= gterms.take(k as int));
            assert(gterms.take(k + 1).last() == gterms[k as int]);
            crate::text::lemma_vec_char_deep_view(terms@[k as int]);
        }
        match best_by_search_term(&terms[k], index) {
            Some(c) => {
                let better = match &best {
                    None => true,
                    Some(p) => c.1 > p.1,
                };
                if better {
                    best = Some(c);
                }
            },
            None => {},
        }
        k = k + 1;
    }
    proof {
        assert(gterms.take(nt as int) =~= gterms);
    }
    match best {
        Some(p) => {
            if p.1 >= options.min_partial_match_confidence {
                return Ok(Exec::DesktopFile(p.0));
            }
        },
        None => {},
    }
    if caps_contain(&options.capabilities, Capability::UseProcFsCommand) {
        match mproc {
            Ok(args) => Ok(Exec::CmdLine(args)),
            Err(e) => Err(e),
        }
    } else {
        match mproc {
            Err(FindError::ProcSearchDisabledNoOtherOptionFound) => Err(
                FindError::ProcSearchDisabledNoOtherOptionFound,
            ),
            Ok(_) => Err(FindError::NotAllowedToUseProcCmdNoOtherOptionFound),
            Err(e) => Err(e),
        }
    }
}

} // verus!

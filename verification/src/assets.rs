//! What a build puts beside the page: each image a document refers to, copied
//! under `assets/` by its file name, and the name of the page itself.

use vstd::prelude::*;

use crate::message::{around_chars, around_str, owned};
use crate::path::{
    file_name, file_name_model, join, join_model, path_components, same_path, stem_model, dot_end,
};
use crate::text::{chars_of, push_chars, push_str};

verus! {

/// The subdirectory of the output directory that holds the images.
pub const ASSET_DIRECTORY: &'static str = "assets";

/// One image to copy into the output directory.
pub struct Asset {
    /// The path as the author wrote it.
    pub authored: String,
    /// Where the image is, resolved against the document's directory.
    pub source: String,
    /// Where it goes in the output directory, such as `assets/图1.png`.
    pub target: String,
}

/// The view of an [`Asset`].
pub struct AssetV {
    pub authored: Seq<char>,
    pub source: Seq<char>,
    pub target: Seq<char>,
}

impl View for Asset {
    type V = AssetV;

    open spec fn view(&self) -> AssetV {
        AssetV { authored: self.authored@, source: self.source@, target: self.target@ }
    }
}

/// The images a build has placed, in the order first referred to, and the
/// first problem met while placing them.
pub struct Assets {
    directory: String,
    copies: Vec<Asset>,
    failure: Option<String>,
}

/// The view of [`Assets`].
pub struct AssetsV {
    /// The document's directory, against which authored paths resolve.
    pub directory: Seq<char>,
    /// The images to copy.
    pub copies: Seq<AssetV>,
    /// The first problem met, if any.
    pub failure: Option<Seq<char>>,
}

/// The view of an optional string.
pub open spec fn opt_view(o: Option<String>) -> Option<Seq<char>> {
    match o {
        Some(s) => Some(s@),
        None => None,
    }
}

impl View for Assets {
    type V = AssetsV;

    closed spec fn view(&self) -> AssetsV {
        AssetsV {
            directory: self.directory@,
            copies: self.copies@.map_values(|a: Asset| a@),
            failure: opt_view(self.failure),
        }
    }
}

/// Where an image named `name` goes in the output directory.
pub open spec fn asset_target(name: Seq<char>) -> Seq<char> {
    "assets/"@ + name
}

/// The problem with an authored path that names no file.
pub open spec fn msg_invalid_image(authored: Seq<char>) -> Seq<char> {
    "图片路径无效："@ + authored
}

/// The problem with two images that share a file name.
pub open spec fn msg_clashing_images(name: Seq<char>, existing: Seq<char>, authored: Seq<char>) -> Seq<
    char,
> {
    "两张图片都叫 "@ + name + "："@ + existing + " 与 "@ + authored
}

/// The index of the first copy in `copies[i..]` going to `target`, or
/// `copies.len()`.
pub open spec fn first_target(copies: Seq<AssetV>, target: Seq<char>, i: int) -> int
    decreases copies.len() - i,
{
    if i < 0 || i >= copies.len() {
        copies.len() as int
    } else if copies[i].target == target {
        i
    } else {
        first_target(copies, target, i + 1)
    }
}

/// `s` with `m` as its problem, unless it already has one.
pub open spec fn record(s: AssetsV, m: Seq<char>) -> AssetsV {
    if s.failure is None {
        AssetsV { directory: s.directory, copies: s.copies, failure: Some(m) }
    } else {
        s
    }
}

/// What placing the image `authored` does: the registry after it, and where
/// the page refers to the image, `None` when it cannot be placed.
pub open spec fn place_model(s: AssetsV, authored: Seq<char>) -> (AssetsV, Option<Seq<char>>) {
    match file_name_model(authored) {
        None => (record(s, msg_invalid_image(authored)), None),
        Some(name) => {
            let target = asset_target(name);
            let source = join_model(s.directory, authored);
            let k = first_target(s.copies, target, 0);
            if k < s.copies.len() {
                if path_components(s.copies[k].source) == path_components(source) {
                    (s, Some(target))
                } else {
                    (record(s, msg_clashing_images(name, s.copies[k].authored, authored)), None)
                }
            } else {
                (
                    AssetsV {
                        directory: s.directory,
                        copies: s.copies.push(
                            AssetV { authored: authored, source: source, target: target },
                        ),
                        failure: s.failure,
                    },
                    Some(target),
                )
            }
        },
    }
}

/// Whether a registry is well formed: no two copies go to one target, and
/// each goes to `assets/` under its file name from where its path resolves.
pub open spec fn assets_wf(s: AssetsV) -> bool {
    &&& forall|i: int, j: int|
        0 <= i < j < s.copies.len() ==> #[trigger] s.copies[i].target != #[trigger] s.copies[j].target
    &&& forall|i: int|
        0 <= i < s.copies.len() ==> {
            let a = #[trigger] s.copies[i];
            &&& file_name_model(a.authored) matches Some(n) && a.target == asset_target(n)
            &&& a.source == join_model(s.directory, a.authored)
        }
}

proof fn lemma_first_target(copies: Seq<AssetV>, target: Seq<char>, i: int)
    requires
        0 <= i <= copies.len(),
    ensures
        i <= first_target(copies, target, i) <= copies.len(),
        first_target(copies, target, i) < copies.len() ==> copies[first_target(copies, target, i)].target
            == target,
        forall|j: int|
            i <= j < first_target(copies, target, i) ==> #[trigger] copies[j].target != target,
    decreases copies.len() - i,
{
    if i < copies.len() && copies[i].target != target {
        lemma_first_target(copies, target, i + 1);
    }
}

/// Placing an image keeps a registry well formed.
pub proof fn law_placing_keeps_the_registry_well_formed(s: AssetsV, authored: Seq<char>)
    requires
        assets_wf(s),
    ensures
        assets_wf(place_model(s, authored).0),
{
    if let Some(name) = file_name_model(authored) {
        let target = asset_target(name);
        lemma_first_target(s.copies, target, 0);
        let k = first_target(s.copies, target, 0);
        if k >= s.copies.len() {
            let t = place_model(s, authored).0;
            assert forall|i: int, j: int| 0 <= i < j < t.copies.len() implies #[trigger] t.copies[i].target
                != #[trigger] t.copies[j].target by {
                if j == s.copies.len() {
                    assert(s.copies[i].target != target);
                } else {
                    assert(s.copies[i] == t.copies[i] && s.copies[j] == t.copies[j]);
                }
            }
            assert forall|i: int| 0 <= i < t.copies.len() implies {
                let a = #[trigger] t.copies[i];
                &&& file_name_model(a.authored) matches Some(n) && a.target == asset_target(n)
                &&& a.source == join_model(t.directory, a.authored)
            } by {
                if i < s.copies.len() {
                    assert(t.copies[i] == s.copies[i]);
                }
            }
        }
    }
}

/// Placing the same image again changes nothing and gives the same answer.
pub proof fn law_placing_again_changes_nothing(s: AssetsV, authored: Seq<char>)
    requires
        assets_wf(s),
    ensures
        place_model(place_model(s, authored).0, authored) == place_model(s, authored),
{
    if let Some(name) = file_name_model(authored) {
        let target = asset_target(name);
        lemma_first_target(s.copies, target, 0);
        let k = first_target(s.copies, target, 0);
        let s1 = place_model(s, authored).0;
        lemma_first_target(s1.copies, target, 0);
        if k >= s.copies.len() {
            assert(s1.copies[s.copies.len() as int].target == target);
            assert(first_target(s1.copies, target, 0) == s.copies.len()) by {
                let f = first_target(s1.copies, target, 0);
                if f < s.copies.len() {
                    assert(s1.copies[f] == s.copies[f]);
                }
            }
        } else {
            assert(s1.copies == s.copies);
        }
    }
}

/// An image that is placed is referred to where a copy of that very file
/// goes; one that is not leaves the build with a problem to report.
pub proof fn law_placed_images_point_at_their_copy(s: AssetsV, authored: Seq<char>)
    requires
        assets_wf(s),
    ensures
        ({
            let (t, r) = place_model(s, authored);
            &&& r matches Some(target) ==> exists|k: int|
                0 <= k < t.copies.len() && #[trigger] t.copies[k].target == target && path_components(
                    t.copies[k].source,
                ) == path_components(join_model(s.directory, authored))
            &&& r is None ==> t.failure is Some
        }),
{
    if let Some(name) = file_name_model(authored) {
        let target = asset_target(name);
        lemma_first_target(s.copies, target, 0);
        let k = first_target(s.copies, target, 0);
        let t = place_model(s, authored).0;
        if k >= s.copies.len() {
            assert(t.copies[s.copies.len() as int].target == target);
        } else {
            assert(t.copies[k].target == target);
        }
    }
}

impl Assets {
    /// Whether the registry is well formed.
    pub open spec fn wf(&self) -> bool {
        assets_wf(self@)
    }

    /// An empty registry for a document in `directory`.
    pub fn new(directory: &str) -> (r: Assets)
        ensures
            r@.directory == directory@,
            r@.copies.len() == 0,
            r@.failure is None,
            r.wf(),
    {
        let r = Assets { directory: owned(directory), copies: Vec::new(), failure: None };
        assert(r@.copies =~= Seq::<AssetV>::empty());
        r
    }

    /// The images to copy, in the order first referred to.
    pub fn copies(&self) -> (r: &Vec<Asset>)
        ensures
            r@.map_values(|a: Asset| a@) == self@.copies,
    {
        &self.copies
    }

    /// The first problem met while placing, taken out of the registry.
    pub fn take_failure(&mut self) -> (r: Option<String>)
        ensures
            opt_view(r) == old(self)@.failure,
            final(self)@.failure is None,
            final(self)@.directory == old(self)@.directory,
            final(self)@.copies == old(self)@.copies,
    {
        self.failure.take()
    }

    /// Notes `m` as the problem, unless one is noted already.
    fn record(&mut self, m: String)
        ensures
            final(self)@ == record(old(self)@, m@),
    {
        if self.failure.is_none() {
            self.failure = Some(m);
        }
    }

    /// Registers a reference to the image `authored` and returns where the page
    /// should refer to it; `None` when it cannot be placed, the problem then
    /// being noted.
    pub fn place(&mut self, authored: &str) -> (r: Option<String>)
        requires
            old(self).wf(),
        ensures
            final(self).wf(),
            (final(self)@, opt_view(r)) == place_model(old(self)@, authored@),
    {
        proof {
            law_placing_keeps_the_registry_well_formed(self@, authored@);
        }
        proof {
            reveal_strlit("");
        }
        let a = chars_of(authored);
        let name = match file_name(&a) {
            None => {
                let m = around_str("图片路径无效：", authored, "");
                assert(m@ =~= msg_invalid_image(authored@));
                self.record(m);
                return None;
            },
            Some(n) => n,
        };
        let target = around_chars("assets/", &name, "");
        assert(target@ =~= asset_target(name@));
        let d = chars_of(self.directory.as_str());
        let source = join(&d, &a);
        let ghost copies = self@.copies;
        let mut k: usize = 0;
        while k < self.copies.len()
            invariant
                0 <= k <= self.copies.len(),
                copies == self@.copies,
                first_target(copies, target@, 0) == first_target(copies, target@, k as int),
            ensures
                0 <= k <= self.copies.len(),
                copies == self@.copies,
                first_target(copies, target@, 0) == first_target(copies, target@, k as int),
                k < self.copies.len() ==> copies[k as int].target == target@,
            decreases self.copies.len() - k,
        {
            if self.copies[k].target == target {
                assert(copies[k as int].target == target@);
                break;
            }
            assert(copies[k as int].target != target@);
            k = k + 1;
        }
        if k < self.copies.len() {
            let existing = chars_of(self.copies[k].source.as_str());
            let fresh = chars_of(source.as_str());
            if same_path(&existing, &fresh) {
                return Some(target);
            }
            let mut m = String::new();
            push_str(&mut m, "两张图片都叫 ");
            push_chars(&mut m, &name, 0, name.len());
            push_str(&mut m, "：");
            push_str(&mut m, self.copies[k].authored.as_str());
            push_str(&mut m, " 与 ");
            push_str(&mut m, authored);
            assert(name@.subrange(0, name@.len() as int) =~= name@);
            assert(m@ =~= msg_clashing_images(name@, copies[k as int].authored, authored@));
            self.record(m);
            return None;
        }
        let ghost before = self@.copies;
        let placed = Asset { authored: owned(authored), source: source, target: target.clone() };
        self.copies.push(placed);
        assert(self@.copies =~= before.push(
            AssetV { authored: authored@, source: join_model(d@, a@), target: target@ },
        ));
        Some(target)
    }
}

/// The problem with a document path that names no file.
pub open spec fn msg_invalid_document(document: Seq<char>) -> Seq<char> {
    "题目文档路径无效："@ + document
}

/// The name of the page built from `document`: its file name with the
/// extension replaced by `.html`.
pub open spec fn html_name_model(document: Seq<char>) -> Result<Seq<char>, Seq<char>> {
    match file_name_model(document) {
        None => Err(msg_invalid_document(document)),
        Some(n) => Ok(stem_model(n) + ".html"@),
    }
}

/// The name of the page built from `document` in the output directory: the
/// document's name with `.html` for its extension; an error when the path
/// names no file.
pub fn html_name(document: &str) -> (r: Result<String, String>)
    ensures
        match r {
            Ok(name) => html_name_model(document@) == Ok::<Seq<char>, Seq<char>>(name@),
            Err(m) => html_name_model(document@) == Err::<Seq<char>, Seq<char>>(m@),
        },
{
    proof {
        reveal_strlit("");
    }
    let d = chars_of(document);
    match file_name(&d) {
        None => {
            let m = around_str("题目文档路径无效：", document, "");
            assert(m@ =~= msg_invalid_document(document@));
            Err(m)
        },
        Some(n) => {
            let k = dot_end(&n);
            let stem_end = if k <= 1 {
                n.len()
            } else {
                k - 1
            };
            let mut out = String::new();
            push_chars(&mut out, &n, 0, stem_end);
            push_str(&mut out, ".html");
            assert(out@ =~= stem_model(n@) + ".html"@);
            Ok(out)
        },
    }
}

/// An image whose path ends in a named part `n` goes to `assets/n`: placing
/// it answers `assets/n`, unless another file of the same name took that
/// place first, whatever the path before `n` (`..` parts included).
pub proof fn law_images_go_under_their_file_name(s: AssetsV, base: Seq<char>, n: Seq<char>)
    requires
        assets_wf(s),
        crate::path::named_part(n),
    ensures
        ({
            let authored = base + seq!['/'] + n;
            let (t, r) = place_model(s, authored);
            ||| r == Some("assets/"@ + n)
            ||| (r is None && exists|k: int|
                0 <= k < s.copies.len() && #[trigger] s.copies[k].target == "assets/"@ + n
                    && path_components(s.copies[k].source) != path_components(
                    join_model(s.directory, authored),
                ))
        }),
{
    let authored = base + seq!['/'] + n;
    crate::path::law_file_name_is_the_last_part(base, n);
    let target = asset_target(n);
    lemma_first_target(s.copies, target, 0);
}

/// The page is named after the document's file: a document whose path ends
/// in a named part `n`, after any path, gives the page `stem.html`, where
/// `stem` is `n` without its extension.
pub proof fn law_page_is_named_after_the_document(base: Seq<char>, n: Seq<char>)
    requires
        crate::path::named_part(n),
    ensures
        html_name_model(n) == Ok::<Seq<char>, Seq<char>>(stem_model(n) + ".html"@),
        html_name_model(base + seq!['/'] + n) == Ok::<Seq<char>, Seq<char>>(stem_model(n) + ".html"@),
{
    crate::path::law_file_name_is_the_last_part(base, n);
}

} // verus!

//! Image references: which registry an image is pulled from, and how a
//! reference falls into registry, repository and tag.

use vstd::prelude::*;
use crate::text::{
    chars_of, find_char, first_index_of, has_char, last_index_of, lemma_first_index_of,
    lemma_last_index_before, rfind_char, same_chars, slice_chars, string_of,
};

verus! {

/// The registry that serves images whose reference names none.
pub open spec fn default_registry() -> Seq<char> {
    "docker.io"@
}

/// The tag of a reference that names none.
pub open spec fn default_tag() -> Seq<char> {
    "latest"@
}

/// The part of `image` before its first slash; all of it where it has no
/// slash.
pub open spec fn first_segment(image: Seq<char>) -> Seq<char> {
    image.subrange(0, first_index_of(image, '/'))
}

/// Whether the first segment of a reference names a registry host: it holds
/// a dot or a colon, or it is `localhost`.
pub open spec fn names_host(segment: Seq<char>) -> bool {
    segment.contains('.') || segment.contains(':') || segment == "localhost"@
}

/// The registry from which `image` is pulled: its first segment where that
/// names a host, the default registry otherwise.
pub open spec fn registry_of(image: Seq<char>) -> Seq<char> {
    if names_host(first_segment(image)) {
        first_segment(image)
    } else {
        default_registry()
    }
}

/// What is left of `image` beside its registry: what follows the first
/// slash where the first segment names a host; otherwise all of it, or
/// nothing where it begins with a slash.
pub open spec fn remainder_of(image: Seq<char>) -> Seq<char> {
    let cut = first_index_of(image, '/');
    if names_host(first_segment(image)) {
        if cut < image.len() {
            image.subrange(cut + 1, image.len() as int)
        } else {
            Seq::empty()
        }
    } else if cut == 0 {
        Seq::empty()
    } else {
        image
    }
}

/// The repository of `name`: what stands before its last colon; all of it
/// where it has no colon.
pub open spec fn repo_of(name: Seq<char>) -> Seq<char> {
    let k = last_index_of(name, ':');
    if k >= 0 {
        name.subrange(0, k)
    } else {
        name
    }
}

/// The tag of `name`: what follows its last colon; the default tag where
/// it has no colon.
pub open spec fn tag_of(name: Seq<char>) -> Seq<char> {
    let k = last_index_of(name, ':');
    if k >= 0 {
        name.subrange(k + 1, name.len() as int)
    } else {
        default_tag()
    }
}

/// The name under which `repo` of `registry_host` is asked for: with the
/// host in front, except at the default registry, where a repository
/// without a slash goes under `library/` and any other stands as it is.
pub open spec fn from_image_of(registry_host: Seq<char>, repo: Seq<char>) -> Seq<char> {
    if registry_host == default_registry() {
        if repo.contains('/') {
            repo
        } else {
            "library/"@ + repo
        }
    } else {
        registry_host + "/"@ + repo
    }
}

/// Whether `segment` names a registry host.
pub fn is_host(segment: &Vec<char>) -> (r: bool)
    ensures
        r == names_host(segment@),
{
    if has_char(segment, '.') || has_char(segment, ':') {
        return true;
    }
    let local = chars_of("localhost");
    same_chars(segment, &local)
}

/// The registry from which `image` is pulled: the first segment of the
/// reference where it holds a dot or a colon or is `localhost`, and
/// `docker.io` otherwise.
pub fn parse_registry(image: &str) -> (registry: String)
    ensures
        registry@ == registry_of(image@),
{
    let chars = chars_of(image);
    let cut = find_char(&chars, '/');
    let first = slice_chars(&chars, 0, cut);
    if is_host(&first) {
        string_of(&first)
    } else {
        "docker.io".to_owned()
    }
}

/// Splits `image` into repository and tag at its last colon; without a
/// colon the tag is `latest`.
pub fn split_repo_tag(image: &str) -> (r: (String, String))
    ensures
        r.0@ == repo_of(image@),
        r.1@ == tag_of(image@),
{
    let chars = chars_of(image);
    split_chars(&chars)
}

/// Splits `name` into repository and tag at its last colon.
fn split_chars(name: &Vec<char>) -> (r: (String, String))
    ensures
        r.0@ == repo_of(name@),
        r.1@ == tag_of(name@),
{
    match rfind_char(name, ':') {
        Some(k) => {
            let repo = slice_chars(name, 0, k);
            let tag = slice_chars(name, k + 1, name.len());
            (string_of(&repo), string_of(&tag))
        },
        None => {
            assert(name@.subrange(0, name.len() as int) =~= name@);
            (string_of(name), "latest".to_owned())
        },
    }
}

/// Splits `image` into registry host, repository and tag. The host is the
/// first segment where that names one, and `docker.io` otherwise;
/// repository and tag are what is left, split at its last colon.
pub fn parse_image_ref(image: &str) -> (r: (String, String, String))
    ensures
        r.0@ == registry_of(image@),
        r.1@ == repo_of(remainder_of(image@)),
        r.2@ == tag_of(remainder_of(image@)),
{
    let chars = chars_of(image);
    let cut = find_char(&chars, '/');
    let first = slice_chars(&chars, 0, cut);
    if is_host(&first) {
        let rest = if cut < chars.len() {
            slice_chars(&chars, cut + 1, chars.len())
        } else {
            Vec::new()
        };
        let (repo, tag) = split_chars(&rest);
        (string_of(&first), repo, tag)
    } else {
        let rest = if cut == 0 {
            Vec::new()
        } else {
            assert(chars@.subrange(0, chars.len() as int) =~= chars@);
            slice_chars(&chars, 0, chars.len())
        };
        let (repo, tag) = split_chars(&rest);
        ("docker.io".to_owned(), repo, tag)
    }
}

/// The name under which `repo` of `registry_host` is asked for.
pub fn build_from_image(registry_host: &str, repo: &str) -> (name: String)
    ensures
        name@ == from_image_of(registry_host@, repo@),
{
    if crate::text::same_text(registry_host, "docker.io") {
        let chars = chars_of(repo);
        if has_char(&chars, '/') {
            repo.to_owned()
        } else {
            "library/".to_owned().concat(repo)
        }
    } else {
        registry_host.to_owned().concat("/").concat(repo)
    }
}

/// The registry of a reference depends on its first segment alone: two
/// references with the same first segment are pulled from the same
/// registry.
pub proof fn law_registry_depends_on_first_segment(a: Seq<char>, b: Seq<char>)
    requires
        first_segment(a) == first_segment(b),
    ensures
        registry_of(a) == registry_of(b),
{
}

/// A reference whose first segment names a host falls into that host and
/// what follows the first slash: put together again they give the
/// reference.
pub proof fn law_host_and_remainder_rebuild(image: Seq<char>)
    requires
        names_host(first_segment(image)),
        image.contains('/'),
    ensures
        registry_of(image) + seq!['/'] + remainder_of(image) == image,
{
    lemma_first_index_of(image, '/');
    assert(registry_of(image) + seq!['/'] + remainder_of(image) =~= image);
}

/// Repository and tag of a name with a colon give the name back when they
/// are joined by a colon, and the tag holds no colon.
pub proof fn law_repo_and_tag_rebuild(name: Seq<char>)
    requires
        name.contains(':'),
    ensures
        repo_of(name) + seq![':'] + tag_of(name) == name,
        !tag_of(name).contains(':'),
{
    lemma_last_index_before(name, ':', name.len() as int);
    let k = last_index_of(name, ':');
    let w = choose|w: int| 0 <= w < name.len() && name[w] == ':';
    assert(name[w] == ':');
    assert(k >= 0);
    assert(repo_of(name) + seq![':'] + tag_of(name) =~= name);
    if tag_of(name).contains(':') {
        let j = choose|j: int| 0 <= j < tag_of(name).len() && tag_of(name)[j] == ':';
        assert(name[k + 1 + j] == ':');
    }
}

} // verus!

//! Which paths count as videos.
//!
//! A path is taken for a video when it ends with one of the recognized
//! extensions. The match is on the bare suffix and is case-sensitive: no dot
//! has to stand before the extension, so `amp4` is a video name and `a.MP4`
//! is not.

use crate::text::ends_with;
use vstd::prelude::*;

verus! {

/// The error type of `std::io`, declared so that it can stand in a
/// signature. Nothing is claimed of its values.
#[verifier::external_type_specification]
#[verifier::external_body]
pub struct ExIoError(std::io::Error);

/// The recognized video extensions.
pub open spec fn video_extensions() -> Set<Seq<char>> {
    set!["mp4"@, "mkv"@, "mov"@, "webm"@]
}

/// A name is a video name when it ends with a recognized extension.
pub open spec fn is_video_name(name: Seq<char>) -> bool {
    exists|ext: Seq<char>| #[trigger] video_extensions().contains(ext) && ext.is_suffix_of(name)
}

/// The video names among `files`, in their order.
pub open spec fn video_files(files: Seq<Seq<char>>) -> Seq<Seq<char>> {
    files.filter(|name: Seq<char>| is_video_name(name))
}

/// Whether `name` ends with a recognized video extension.
pub fn is_video_file(name: &str) -> (r: bool)
    ensures
        r == is_video_name(name@),
{
    let r = ends_with(name, "mp4") || ends_with(name, "mkv") || ends_with(name, "mov") || ends_with(
        name,
        "webm",
    );
    proof {
        if r {
            let ext = if "mp4"@.is_suffix_of(name@) {
                "mp4"@
            } else if "mkv"@.is_suffix_of(name@) {
                "mkv"@
            } else if "mov"@.is_suffix_of(name@) {
                "mov"@
            } else {
                "webm"@
            };
            assert(video_extensions().contains(ext) && ext.is_suffix_of(name@));
        }
    }
    r
}

/// Narrows a listing to its video files, keeping their order.
///
/// This never fails. The result is an `io::Result` so that it chains with
/// the reading of the directory that comes before it.
pub fn get_video_files(files: Vec<String>) -> (r: Result<Vec<String>, std::io::Error>)
    ensures
        r is Ok,
        r matches Ok(videos) ==> videos.deep_view() == video_files(files.deep_view()),
{
    let mut videos: Vec<String> = Vec::new();
    let mut i: usize = 0;
    proof {
        reveal(Seq::filter);
        assert(files.deep_view().take(0) =~= Seq::<Seq<char>>::empty());
    }
    while i < files.len()
        invariant
            i <= files.len(),
            videos.deep_view() == video_files(files.deep_view().take(i as int)),
        decreases files.len() - i,
    {
        let ghost kept = videos.deep_view();
        let ghost seen = files.deep_view().take(i as int);
        let name = &files[i];
        if is_video_file(name.as_str()) {
            videos.push(name.clone());
            assert(videos.deep_view() =~= kept.push(name@));
        }
        proof {
            assert(files.deep_view().take(i + 1) =~= seen.push(name@));
            seen.lemma_filter_push(name@, |n: Seq<char>| is_video_name(n));
        }
        i += 1;
    }
    assert(files.deep_view().take(i as int) =~= files.deep_view());
    Ok(videos)
}

/// `at` gives, for each item of `sub`, its place in `whole`, and the places
/// rise: `sub` is `whole` with some items left out.
pub open spec fn embeds_at(sub: Seq<Seq<char>>, whole: Seq<Seq<char>>, at: Seq<int>) -> bool {
    &&& at.len() == sub.len()
    &&& forall|k: int|
        0 <= k < at.len() ==> 0 <= #[trigger] at[k] < whole.len() && sub[k] == whole[at[k]]
    &&& forall|j: int, k: int| 0 <= j < k < at.len() ==> at[j] < at[k]
}

/// A sequence that holds only video names is its own filtering.
proof fn lemma_all_videos_kept(files: Seq<Seq<char>>)
    requires
        forall|i: int| 0 <= i < files.len() ==> is_video_name(#[trigger] files[i]),
    ensures
        video_files(files) == files,
    decreases files.len(),
{
    reveal(Seq::filter);
    if files.len() > 0 {
        lemma_all_videos_kept(files.drop_last());
        assert(files.drop_last().push(files.last()) =~= files);
    }
}

/// Filtering is idempotent: a filtered listing, filtered again, is unchanged.
pub proof fn lemma_video_files_idempotent(files: Seq<Seq<char>>)
    ensures
        video_files(video_files(files)) == video_files(files),
{
    let pred = |name: Seq<char>| is_video_name(name);
    assert forall|i: int| 0 <= i < video_files(files).len() implies is_video_name(
        #[trigger] video_files(files)[i],
    ) by {
        files.lemma_filter_pred(pred, i);
    }
    lemma_all_videos_kept(video_files(files));
}

/// Filtering keeps the order and invents nothing: the result is the input
/// with the other names left out. Every item of the result stands in the
/// input, at places that rise with the result's own; every item is a video
/// name; and each video name of the input is kept at its place.
pub proof fn lemma_video_files_embed(files: Seq<Seq<char>>) -> (at: Seq<int>)
    ensures
        embeds_at(video_files(files), files, at),
        forall|k: int|
            0 <= k < video_files(files).len() ==> is_video_name(#[trigger] video_files(files)[k]),
        forall|i: int|
            0 <= i < files.len() && is_video_name(#[trigger] files[i]) ==> at.contains(i),
    decreases files.len(),
{
    reveal(Seq::filter);
    if files.len() == 0 {
        Seq::<int>::empty()
    } else {
        let front = files.drop_last();
        let last = files.len() - 1;
        let before = lemma_video_files_embed(front);
        let at = if is_video_name(files.last()) {
            before.push(last)
        } else {
            before
        };
        assert forall|i: int| 0 <= i < files.len() && is_video_name(
            #[trigger] files[i],
        ) implies at.contains(i) by {
            if i < last {
                assert(is_video_name(front[i]));
                let k = choose|k: int| 0 <= k < before.len() && before[k] == i;
                assert(at[k] == i);
            } else {
                assert(at[at.len() - 1] == i);
            }
        }
        at
    }
}

/// The last component of a path: what follows its last `/`, or all of it
/// where it has none.
pub open spec fn final_component(path: Seq<char>) -> Seq<char>
    decreases path.len(),
{
    if path.len() == 0 || path.last() == '/' {
        Seq::empty()
    } else {
        final_component(path.drop_last()).push(path.last())
    }
}

/// The last component ends the path, holds no `/`, and has one before it
/// unless it is the whole path.
proof fn lemma_final_component(path: Seq<char>)
    ensures
        final_component(path).is_suffix_of(path),
        !final_component(path).contains('/'),
        final_component(path).len() < path.len() ==> path[path.len() - final_component(
            path,
        ).len() - 1] == '/',
    decreases path.len(),
{
    let last = final_component(path);
    if path.len() == 0 || path.last() == '/' {
        assert(last =~= path.subrange(path.len() as int, path.len() as int));
    } else {
        let front = path.drop_last();
        let before = final_component(front);
        lemma_final_component(front);
        assert(last =~= path.subrange(path.len() - last.len(), path.len() as int));
        assert forall|i: int| 0 <= i < last.len() implies last[i] != '/' by {
            if i < before.len() {
                assert(before.contains(before[i]));
            }
        }
    }
}

/// A text without a `/` ends a path exactly when it ends the path's last
/// component.
proof fn lemma_suffix_of_final_component(path: Seq<char>, ext: Seq<char>)
    requires
        !ext.contains('/'),
    ensures
        ext.is_suffix_of(path) <==> ext.is_suffix_of(final_component(path)),
{
    let last = final_component(path);
    lemma_final_component(path);
    let n = path.len() as int;
    if ext.is_suffix_of(last) {
        assert(ext =~= path.subrange(n - ext.len(), n));
    }
    if ext.is_suffix_of(path) {
        if ext.len() > last.len() {
            let k = ext.len() - last.len() - 1;
            assert(ext[k] == path[n - ext.len() + k]);
            assert(ext.contains(ext[k]));
        }
        assert(ext =~= last.subrange(last.len() - ext.len(), last.len() as int));
    }
}

/// Whether a path is a video name is decided by its last component alone:
/// the directories that lead to a file play no part.
pub proof fn lemma_video_name_by_final_component(path: Seq<char>)
    ensures
        is_video_name(path) == is_video_name(final_component(path)),
{
    reveal_strlit("mp4");
    reveal_strlit("mkv");
    reveal_strlit("mov");
    reveal_strlit("webm");
    assert forall|ext: Seq<char>| #[trigger] video_extensions().contains(ext) implies (
    ext.is_suffix_of(path) <==> ext.is_suffix_of(final_component(path))) by {
        assert forall|i: int| 0 <= i < ext.len() implies ext[i] != '/' by {}
        lemma_suffix_of_final_component(path, ext);
    }
}

} // verus!

use vstd::prelude::*;
use crate::decimal::{decimal, decimal_string, lemma_decimal_injective};
use crate::schedule::{cleanup_indices, forward_index, frame_file_indices, mirror_index};

verus! {

/// Path of frame file `idx`: `{dir}/{name}_{idx}.png`.
pub open spec fn frame_path_spec(dir: Seq<char>, name: Seq<char>, idx: nat) -> Seq<char> {
    dir + "/"@ + name + "_"@ + decimal(idx) + ".png"@
}

/// Builds `frame_path_spec(dir, name, idx)`.
pub fn frame_path(dir: &str, name: &str, idx: u32) -> (p: String)
    ensures
        p@ == frame_path_spec(dir@, name@, idx as nat),
{
    let mut p = String::new();
    p.append(dir);
    p.append("/");
    p.append(name);
    p.append("_");
    let digits = decimal_string(idx);
    p.append(digits.as_str());
    p.append(".png");
    assert(p@ =~= frame_path_spec(dir@, name@, idx as nat));
    p
}

/// Two different frame indices never name the same file in one directory
/// under one name, so no frame file overwrites another.
pub proof fn lemma_frame_path_injective(dir: Seq<char>, name: Seq<char>, a: nat, b: nat)
    requires
        frame_path_spec(dir, name, a) == frame_path_spec(dir, name, b),
    ensures
        a == b,
{
    let pre = dir + "/"@ + name + "_"@;
    let suf = ".png"@;
    let pa = frame_path_spec(dir, name, a);
    let pb = frame_path_spec(dir, name, b);
    assert(pa =~= pre + decimal(a) + suf);
    assert(pb =~= pre + decimal(b) + suf);
    assert(decimal(a).len() == decimal(b).len());
    assert(decimal(a) =~= pa.subrange(pre.len() as int, (pre.len() + decimal(a).len()) as int));
    assert(decimal(b) =~= pb.subrange(pre.len() as int, (pre.len() + decimal(b).len()) as int));
    lemma_decimal_injective(a, b);
}

/// The two files that frame `i` (counted from 1) of `frames` is saved to:
/// its forward slot and its mirrored slot.
pub fn frame_save_paths(dir: &str, name: &str, i: u32, frames: u32) -> (r: (String, String))
    requires
        1 <= i <= frames,
        2 * frames <= u32::MAX,
    ensures
        r.0@ == frame_path_spec(dir@, name@, forward_index(i as int) as nat),
        r.1@ == frame_path_spec(dir@, name@, mirror_index(i as int, frames as int) as nat),
{
    let (forward, mirror) = frame_file_indices(i, frames);
    let first = frame_path(dir, name, forward);
    let second = frame_path(dir, name, mirror);
    (first, second)
}

/// The files removed after encoding, in removal order: for each frame `i`
/// from 1 to `frames`, the file of its mirrored slot.
pub open spec fn cleanup_paths_spec(dir: Seq<char>, name: Seq<char>, frames: int) -> Seq<Seq<char>> {
    Seq::new(frames as nat, |j: int| frame_path_spec(dir, name, mirror_index(j + 1, frames) as nat))
}

/// Cleaning up removes the mirrored file of every frame and never the
/// forward file of any frame, so exactly one file per frame remains.
pub proof fn lemma_cleanup_paths_keep_forward_files(dir: Seq<char>, name: Seq<char>, frames: int)
    requires
        frames >= 0,
    ensures
        forall|i: int|
            1 <= i <= frames ==> cleanup_paths_spec(dir, name, frames).contains(
                #[trigger] frame_path_spec(dir, name, mirror_index(i, frames) as nat),
            ),
        forall|i: int|
            1 <= i <= frames ==> !cleanup_paths_spec(dir, name, frames).contains(
                #[trigger] frame_path_spec(dir, name, forward_index(i) as nat),
            ),
{
    let removed = cleanup_paths_spec(dir, name, frames);
    assert forall|i: int| 1 <= i <= frames implies removed.contains(
        #[trigger] frame_path_spec(dir, name, mirror_index(i, frames) as nat),
    ) by {
        assert(removed[i - 1] == frame_path_spec(dir, name, mirror_index(i, frames) as nat));
    }
    assert forall|i: int| 1 <= i <= frames implies !removed.contains(
        #[trigger] frame_path_spec(dir, name, forward_index(i) as nat),
    ) by {
        if removed.contains(frame_path_spec(dir, name, forward_index(i) as nat)) {
            let j = choose|j: int|
                0 <= j < removed.len() && removed[j] == frame_path_spec(
                    dir,
                    name,
                    forward_index(i) as nat,
                );
            lemma_frame_path_injective(
                dir,
                name,
                mirror_index(j + 1, frames) as nat,
                forward_index(i) as nat,
            );
        }
    }
}

/// Builds `cleanup_paths_spec(dir, name, frames)`.
pub fn cleanup_paths(dir: &str, name: &str, frames: u32) -> (r: Vec<String>)
    requires
        2 * frames <= u32::MAX,
    ensures
        r@.map_values(|p: String| p@) == cleanup_paths_spec(dir@, name@, frames as int),
        r.len() == frames,
        forall|j: int|
            0 <= j < frames ==> (#[trigger] r[j])@ == frame_path_spec(
                dir@,
                name@,
                mirror_index(j + 1, frames as int) as nat,
            ),
{
    let indices = cleanup_indices(frames);
    let mut r: Vec<String> = Vec::new();
    let mut j: usize = 0;
    while j < indices.len()
        invariant
            indices.len() == frames,
            forall|k: int|
                0 <= k < frames ==> #[trigger] indices[k] == mirror_index(k + 1, frames as int),
            j <= indices.len(),
            r.len() == j,
            forall|k: int|
                0 <= k < j ==> (#[trigger] r[k])@ == frame_path_spec(
                    dir@,
                    name@,
                    mirror_index(k + 1, frames as int) as nat,
                ),
        decreases indices.len() - j,
    {
        let p = frame_path(dir, name, indices[j]);
        r.push(p);
        j = j + 1;
    }
    assert(r@.map_values(|p: String| p@) =~= cleanup_paths_spec(dir@, name@, frames as int));
    r
}

/// Replacement text of one character when a frame file is renamed: an
/// underscore becomes `_fx_`, any other character stays.
pub open spec fn fx_piece(c: char) -> Seq<char> {
    if c == '_' {
        "_fx_"@
    } else {
        seq![c]
    }
}

/// `name` with every `_` replaced by `_fx_`, as `str::replace("_", "_fx_")`
/// returns it.
pub open spec fn fx_name_spec(name: Seq<char>) -> Seq<char>
    decreases name.len(),
{
    if name.len() == 0 {
        seq![]
    } else {
        fx_name_spec(name.drop_last()) + fx_piece(name.last())
    }
}

/// `s` holds no underscore.
pub open spec fn no_underscore(s: Seq<char>) -> bool {
    forall|k: int| 0 <= k < s.len() ==> s[k] != '_'
}

/// Renaming distributes over concatenation.
pub proof fn lemma_fx_name_concat(s: Seq<char>, t: Seq<char>)
    ensures
        fx_name_spec(s + t) == fx_name_spec(s) + fx_name_spec(t),
    decreases t.len(),
{
    if t.len() == 0 {
        assert(s + t =~= s);
        assert(fx_name_spec(s) + fx_name_spec(t) =~= fx_name_spec(s));
    } else {
        lemma_fx_name_concat(s, t.drop_last());
        assert((s + t).drop_last() =~= s + t.drop_last());
        assert((s + t).last() == t.last());
        assert(fx_name_spec(s + t) =~= fx_name_spec(s) + fx_name_spec(t));
    }
}

/// A text without underscores is left as it is.
pub proof fn lemma_fx_name_identity(s: Seq<char>)
    requires
        no_underscore(s),
    ensures
        fx_name_spec(s) == s,
    decreases s.len(),
{
    if s.len() > 0 {
        lemma_fx_name_identity(s.drop_last());
        assert(fx_name_spec(s) =~= s);
    }
}

/// Renaming a frame file `{short}_{rest}` whose stem and rest hold no other
/// underscore gives `{short}_fx_{rest}`.
pub proof fn lemma_fx_name_of_frame_file(short: Seq<char>, rest: Seq<char>)
    requires
        no_underscore(short),
        no_underscore(rest),
    ensures
        fx_name_spec(short + "_"@ + rest) == short + "_fx_"@ + rest,
{
    reveal_strlit("_");
    assert("_"@ =~= seq!['_']);
    lemma_fx_name_concat(short + "_"@, rest);
    lemma_fx_name_concat(short, "_"@);
    lemma_fx_name_identity(short);
    lemma_fx_name_identity(rest);
    assert(seq!['_'].drop_last() =~= Seq::<char>::empty());
    assert(fx_name_spec(Seq::<char>::empty()) =~= Seq::<char>::empty());
    assert(fx_name_spec(seq!['_']) =~= fx_name_spec(Seq::<char>::empty()) + fx_piece('_'));
    assert(fx_name_spec("_"@) =~= "_fx_"@);
}

/// Builds `fx_name_spec(name)`: the name a processed frame is saved under.
pub fn fx_frame_name(name: &str) -> (r: String)
    ensures
        r@ == fx_name_spec(name@),
{
    let n = name.unicode_len();
    let mut out = String::new();
    let mut start: usize = 0;
    let mut i: usize = 0;
    while i < n
        invariant
            n == name@.len(),
            start <= i <= n,
            fx_name_spec(name@.take(i as int)) == out@ + name@.subrange(start as int, i as int),
        decreases n - i,
    {
        let c = name.get_char(i);
        let ghost before = out@;
        assert(name@.take(i + 1).drop_last() =~= name@.take(i as int));
        assert(name@.take(i + 1).last() == c);
        if c == '_' {
            let seg = name.substring_char(start, i);
            out.append(seg);
            out.append("_fx_");
            start = i + 1;
            assert(fx_name_spec(name@.take(i + 1)) =~= out@ + name@.subrange(
                start as int,
                i + 1,
            ));
        } else {
            assert(name@.subrange(start as int, i + 1) =~= name@.subrange(
                start as int,
                i as int,
            ).push(c));
            assert(fx_name_spec(name@.take(i + 1)) =~= out@ + name@.subrange(
                start as int,
                i + 1,
            ));
        }
        i = i + 1;
    }
    let seg = name.substring_char(start, n);
    out.append(seg);
    assert(name@.take(n as int) =~= name@);
    assert(out@ =~= fx_name_spec(name@));
    out
}

/// The pieces of `s` between `/` separators, as `str::split("/")` yields
/// them (an empty text gives one empty piece).
pub open spec fn split_slash(s: Seq<char>) -> Seq<Seq<char>>
    decreases s.len(),
{
    if s.len() == 0 {
        seq![Seq::<char>::empty()]
    } else {
        let parts = split_slash(s.drop_last());
        if s.last() == '/' {
            parts.push(Seq::<char>::empty())
        } else {
            parts.update(parts.len() - 1, parts.last().push(s.last()))
        }
    }
}

/// There is always at least one piece.
pub proof fn lemma_split_slash_nonempty(s: Seq<char>)
    ensures
        split_slash(s).len() >= 1,
    decreases s.len(),
{
    if s.len() > 0 {
        lemma_split_slash_nonempty(s.drop_last());
    }
}

/// The pieces joined back together, with a `/` between neighbours.
pub open spec fn join_slash(parts: Seq<Seq<char>>) -> Seq<char>
    decreases parts.len(),
{
    if parts.len() == 0 {
        Seq::<char>::empty()
    } else if parts.len() == 1 {
        parts[0]
    } else {
        join_slash(parts.drop_last()) + seq!['/'] + parts.last()
    }
}

/// Splitting cuts only at `/`: joining the pieces with `/` gives the text
/// back, and no piece holds a `/`, so every other character stays inside
/// its piece.
pub proof fn lemma_split_slash_pieces(s: Seq<char>)
    ensures
        join_slash(split_slash(s)) == s,
        forall|i: int, k: int|
            0 <= i < split_slash(s).len() && 0 <= k < split_slash(s)[i].len() ==> #[trigger] split_slash(
                s,
            )[i][k] != '/',
    decreases s.len(),
{
    if s.len() == 0 {
        assert(join_slash(split_slash(s)) =~= s);
    } else {
        let t = s.drop_last();
        let c = s.last();
        lemma_split_slash_pieces(t);
        lemma_split_slash_nonempty(t);
        let pt = split_slash(t);
        let ps = split_slash(s);
        assert(t.push(c) =~= s);
        if c == '/' {
            assert(ps.drop_last() =~= pt);
            assert(join_slash(ps) =~= s);
        } else {
            if pt.len() == 1 {
                assert(join_slash(ps) =~= s);
            } else {
                assert(ps.drop_last() =~= pt.drop_last());
                assert(join_slash(ps) =~= s);
            }
            assert forall|i: int, k: int|
                0 <= i < ps.len() && 0 <= k < ps[i].len() implies #[trigger] ps[i][k] != '/' by {
                if i < pt.len() - 1 {
                    assert(ps[i] == pt[i]);
                } else {
                    assert(ps[i] == pt[i].push(c));
                    if k < pt[i].len() {
                        assert(ps[i][k] == pt[i][k]);
                    }
                }
            }
        }
    }
}

/// Appending a character other than `/` keeps the number of pieces and
/// extends the last piece; appending `/` starts a new, empty piece.
pub proof fn lemma_split_slash_push(s: Seq<char>, c: char)
    ensures
        c != '/' ==> split_slash(s.push(c)).len() == split_slash(s).len() && split_slash(
            s.push(c),
        ).last() == split_slash(s).last().push(c) && split_slash(s.push(c)).drop_last()
            == split_slash(s).drop_last(),
        c == '/' ==> split_slash(s.push(c)) == split_slash(s).push(Seq::<char>::empty()),
{
    lemma_split_slash_nonempty(s);
    assert(s.push(c).drop_last() =~= s);
    assert(s.push(c).last() == c);
    if c != '/' {
        assert(split_slash(s.push(c)).drop_last() =~= split_slash(s).drop_last());
    }
}

/// The third `/`-separated piece of an output path such as
/// `src/vid_out/clip`, which names the extracted frames; `None` when the
/// path has fewer than three pieces.
pub fn output_short_name(outname: &str) -> (r: Option<String>)
    ensures
        r is Some <==> split_slash(outname@).len() > 2,
        r matches Some(v) ==> v@ == split_slash(outname@)[2],
{
    let n = outname.unicode_len();
    let mut seps: usize = 0;
    let mut start: usize = 0;
    let mut end: usize = 0;
    let mut i: usize = 0;
    while i < n
        invariant
            n == outname@.len(),
            i <= n,
            seps <= i,
            split_slash(outname@.take(i as int)).len() == seps + 1,
            seps >= 2 ==> start <= i,
            seps >= 3 ==> start <= end <= i,
            seps >= 2 ==> split_slash(outname@.take(i as int))[2] == outname@.subrange(
                start as int,
                if seps >= 3 {
                    end as int
                } else {
                    i as int
                },
            ),
        decreases n - i,
    {
        let c = outname.get_char(i);
        let ghost s = outname@.take(i + 1);
        let ghost parts = split_slash(outname@.take(i as int));
        assert(s.drop_last() =~= outname@.take(i as int));
        assert(s.last() == c);
        proof {
            lemma_split_slash_nonempty(outname@.take(i as int));
        }
        if c == '/' {
            seps = seps + 1;
            if seps == 2 {
                start = i + 1;
                assert(split_slash(s)[2] =~= outname@.subrange(start as int, i + 1));
            } else if seps == 3 {
                end = i;
            }
        } else {
            if seps == 2 {
                assert(outname@.subrange(start as int, i + 1) =~= outname@.subrange(
                    start as int,
                    i as int,
                ).push(c));
            }
        }
        i = i + 1;
    }
    assert(outname@.take(n as int) =~= outname@);
    if seps < 2 {
        None
    } else {
        let stop: usize = if seps >= 3 {
            end
        } else {
            n
        };
        let piece = outname.substring_char(start, stop);
        Some(String::from_str(piece))
    }
}

} // verus!

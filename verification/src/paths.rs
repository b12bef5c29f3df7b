use vstd::prelude::*;

verus! {

use vstd::string::StrSliceExecFns;
use vstd::string::StringExecFns;

pub open spec fn is_separator(c: char) -> bool {
    c == '/' || c == '\\'
}

/// Backward scan for the extension dot, from position `i`: the extension is
/// what follows the last dot of the final path segment, unless that dot is
/// the segment's first character.
pub open spec fn strip_ext_from(p: Seq<char>, i: int) -> Seq<char>
    decreases i + 1,
{
    if i < 0 || i >= p.len() {
        p
    } else if is_separator(p[i]) {
        p
    } else if p[i] == '.' {
        if i == 0 || is_separator(p[i - 1]) {
            p
        } else {
            p.take(i)
        }
    } else {
        strip_ext_from(p, i - 1)
    }
}

/// The path with the extension of its final segment removed, if it has one.
pub open spec fn strip_ext(p: Seq<char>) -> Seq<char> {
    strip_ext_from(p, p.len() - 1)
}

/// Every separator and every dot replaced with an underscore.
pub open spec fn flatten_chars(s: Seq<char>) -> Seq<char> {
    s.map_values(|c: char| if is_separator(c) || c == '.' { '_' } else { c })
}

/// The flattened output name of a relative source path: extension stripped,
/// separators and dots replaced with underscores, ".md" appended.
pub open spec fn flatten_spec(p: Seq<char>) -> Seq<char> {
    flatten_chars(strip_ext(p)) + ".md"@
}

fn strip_extension(p: &str) -> (r: String)
    ensures
        r@ == strip_ext(p@),
{
    let n = p.unicode_len();
    let mut i: usize = n;
    while i > 0
        invariant
            n == p@.len(),
            i <= n,
            strip_ext_from(p@, i as int - 1) == strip_ext(p@),
        decreases i,
    {
        let c = p.get_char(i - 1);
        if c == '/' || c == '\\' {
            return p.to_owned();
        } else if c == '.' {
            if i == 1 {
                return p.to_owned();
            }
            let before = p.get_char(i - 2);
            if before == '/' || before == '\\' {
                return p.to_owned();
            }
            let stem = p.substring_char(0, i - 1).to_owned();
            proof {
                assert(p@.subrange(0, i as int - 1) =~= p@.take(i as int - 1));
            }
            return stem;
        }
        i = i - 1;
    }
    p.to_owned()
}

/// Derives the single-segment output filename for a source path relative to
/// the input root: extension stripped, every separator and dot replaced with
/// an underscore, then ".md" appended. Colliding names are the caller's
/// concern.
pub fn derive_output_name(rel: &str) -> (r: String)
    ensures
        r@ == flatten_spec(rel@),
{
    let stem = strip_extension(rel);
    let stem_str = stem.as_str();
    let n = stem_str.unicode_len();
    let mut out = String::new();
    let mut i: usize = 0;
    proof {
        assert(out@ =~= flatten_chars(stem@.take(0)));
    }
    while i < n
        invariant
            n == stem_str@.len(),
            stem_str@ == strip_ext(rel@),
            i <= n,
            out@ == flatten_chars(stem_str@.take(i as int)),
        decreases n - i,
    {
        let c = stem_str.get_char(i);
        if c == '/' || c == '\\' || c == '.' {
            out.append("_");
            proof {
                reveal_strlit("_");
            }
        } else {
            let piece = stem_str.substring_char(i, i + 1);
            out.append(piece);
        }
        proof {
            assert(out@ =~= flatten_chars(stem_str@.take(i as int + 1)));
        }
        i = i + 1;
    }
    proof {
        assert(stem_str@.take(n as int) =~= stem_str@);
    }
    let r = out.concat(".md");
    r
}

proof fn lemma_strip_ext_nonempty(p: Seq<char>, i: int)
    requires
        p.len() > 0,
    ensures
        strip_ext_from(p, i).len() > 0,
    decreases i + 1,
{
    if i < 0 || i >= p.len() {
    } else if is_separator(p[i]) {
    } else if p[i] == '.' {
    } else {
        lemma_strip_ext_nonempty(p, i - 1);
    }
}

/// Flattening is idempotent: the output name of an already-flattened name is
/// that name itself, for any nonempty relative path.
pub proof fn lemma_flatten_idempotent(p: Seq<char>)
    requires
        p.len() > 0,
    ensures
        flatten_spec(flatten_spec(p)) == flatten_spec(p),
{
    reveal_strlit(".md");
    lemma_strip_ext_nonempty(p, p.len() - 1);
    let q = flatten_chars(strip_ext(p));
    let r = q + ".md"@;
    assert(q.len() > 0);
    assert(forall|k: int|
        0 <= k < q.len() ==> !is_separator(#[trigger] q[k]) && q[k] != '.');
    // the backward scan of r steps over 'd' and 'm', then cuts at the '.'
    assert(r[r.len() - 1] == 'd' && r[r.len() - 2] == 'm' && r[q.len() as int] == '.');
    assert(strip_ext_from(r, r.len() - 1) == strip_ext_from(r, r.len() - 2));
    assert(strip_ext_from(r, r.len() - 2) == strip_ext_from(r, r.len() - 3));
    assert(strip_ext(r) =~= q);
    assert(flatten_chars(q) =~= q);
    assert(flatten_spec(r) == r);
}

} // verus!

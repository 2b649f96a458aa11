//! The names shaders use to request images and values, and their
//! resolution to semantics.

use vstd::prelude::*;
use vstd::string::StrSliceExecFns;
use crate::params::lemma_find_name_absent;
use crate::params::lemma_find_name_at;
use crate::params::spec_find_name;

verus! {

/// An image slot a shader can request by name.
#[derive(Clone, Copy, Debug, PartialEq, Eq, Structural)]
pub enum TextureSemantic {
    /// This frame's input image.
    Original,
    /// The previous pass's output; the input image for pass 0.
    Source,
    /// The input image of `k` frames ago; index 0 is `Original` itself.
    OriginalHistory(u32),
    /// The output an earlier pass wrote this frame.
    PassOutput(u32),
    /// The output a pass wrote in the previous frame.
    PassFeedback(u32),
    /// A lookup texture, by its position in the preset.
    User(u32),
}

/// A value slot a shader can request by uniform-member name.
#[derive(Clone, Copy, Debug, PartialEq, Eq, Structural)]
pub enum UniformSemantic {
    /// The 4x4 projection matrix.
    Mvp,
    /// The size of the pass's own render target.
    OutputSize,
    /// The size of the final viewport.
    FinalViewportSize,
    /// The (possibly wrapped) frame index.
    FrameCount,
    /// The playback direction sign.
    FrameDirection,
    /// The size companion of a texture semantic.
    TextureSize(TextureSemantic),
    /// A user parameter, by its position in the preset.
    Parameter(u32),
}

/// A name under which a pass exports its output to later passes.
#[derive(Clone, Debug)]
pub struct Alias {
    /// The exported name.
    pub name: String,
    /// The pass whose output the name denotes.
    pub pass: u32,
}

/// The alias names, in declaration order.
pub open spec fn spec_alias_names(aliases: Seq<Alias>) -> Seq<Seq<char>> {
    aliases.map_values(|a: Alias| a.name@)
}

/// The views of a sequence of owned names.
pub open spec fn spec_name_views(names: Seq<String>) -> Seq<Seq<char>> {
    names.map_values(|s: String| s@)
}

pub open spec fn spec_is_digit(c: char) -> bool {
    '0' <= c && c <= '9'
}

pub open spec fn spec_all_digits(s: Seq<char>) -> bool {
    forall|i: int| 0 <= i < s.len() ==> spec_is_digit(#[trigger] s[i])
}

/// The number the digit string denotes.
pub open spec fn spec_digits_value(s: Seq<char>) -> nat
    decreases s.len(),
{
    if s.len() == 0 {
        0
    } else {
        spec_digits_value(s.drop_last()) * 10 + ((s.last() as int - '0' as int) as nat)
    }
}

/// A non-empty all-digit string whose value fits an index, or nothing.
pub open spec fn spec_parse_index(s: Seq<char>) -> Option<u32> {
    if s.len() > 0 && spec_all_digits(s) && spec_digits_value(s) <= u32::MAX {
        Some(spec_digits_value(s) as u32)
    } else {
        None
    }
}

/// `p` occurs in `s` at position `start`.
pub open spec fn spec_has_at(s: Seq<char>, p: Seq<char>, start: int) -> bool {
    &&& 0 <= start
    &&& start + p.len() <= s.len()
    &&& s.subrange(start, start + p.len()) == p
}

proof fn lemma_digits_prefix_le(s: Seq<char>, j: int, k: int)
    requires
        0 <= j <= k <= s.len(),
    ensures
        spec_digits_value(s.subrange(0, j)) <= spec_digits_value(s.subrange(0, k)),
    decreases k - j,
{
    if j < k {
        lemma_digits_prefix_le(s, j, k - 1);
        assert(s.subrange(0, k).drop_last() =~= s.subrange(0, k - 1));
        assert(spec_digits_value(s.subrange(0, k)) == spec_digits_value(s.subrange(0, k - 1)) * 10
            + ((s.subrange(0, k).last() as int - '0' as int) as nat));
    }
}

/// Parse the tail of `s` from `start` as a decimal index.
pub fn parse_index(s: &str, start: usize) -> (r: Option<u32>)
    requires
        start <= s@.len(),
    ensures
        r == spec_parse_index(s@.skip(start as int)),
{
    let n = s.unicode_len();
    if start >= n {
        proof {
            assert(s@.skip(start as int).len() == 0);
        }
        return None;
    }
    let ghost t = s@.skip(start as int);
    let mut i: usize = start;
    let mut acc: u64 = 0;
    while i < n
        invariant
            start <= i <= n,
            n == s@.len(),
            t == s@.skip(start as int),
            acc == spec_digits_value(t.subrange(0, i - start)),
            acc <= u32::MAX,
            spec_all_digits(t.subrange(0, i - start)),
        decreases n - i,
    {
        let c = s.get_char(i);
        let cv = c as u32;
        proof {
            assert(t[i - start] == s@[i as int]);
        }
        if cv < 48 || cv > 57 {
            proof {
                assert(!spec_is_digit(t[i - start]));
            }
            return None;
        }
        let d: u64 = (cv - 48) as u64;
        proof {
            assert(t.subrange(0, i - start + 1).drop_last() =~= t.subrange(0, i - start));
            assert(t.subrange(0, i - start + 1).last() == t[i - start]);
            assert(spec_is_digit(t[i - start]));
            assert(d == ((t[i - start] as int - '0' as int) as nat));
        }
        acc = acc * 10 + d;
        i = i + 1;
        if acc > u32::MAX as u64 {
            proof {
                lemma_digits_prefix_le(t, i - start, t.len() as int);
                assert(t.subrange(0, t.len() as int) =~= t);
            }
            return None;
        }
        proof {
            assert(forall|k: int|
                0 <= k < i - start ==> spec_is_digit(#[trigger] t.subrange(0, i - start)[k]));
        }
    }
    proof {
        assert(t.subrange(0, t.len() as int) =~= t);
    }
    Some(acc as u32)
}

/// Whether `pat` occurs in `s` at position `start`.
pub fn chars_match(s: &str, start: usize, pat: &str) -> (r: bool)
    ensures
        r == spec_has_at(s@, pat@, start as int),
{
    let n = s.unicode_len();
    let m = pat.unicode_len();
    if start > n || m > n - start {
        return false;
    }
    let mut j: usize = 0;
    while j < m
        invariant
            j <= m,
            n == s@.len(),
            m == pat@.len(),
            start + m <= n,
            forall|k: int| 0 <= k < j ==> s@[start + k] == pat@[k],
        decreases m - j,
    {
        if s.get_char(start + j) != pat.get_char(j) {
            proof {
                assert(s@.subrange(start as int, start + pat@.len())[j as int] == s@[start + j]);
            }
            return false;
        }
        j = j + 1;
    }
    proof {
        assert(s@.subrange(start as int, start + pat@.len()) =~= pat@);
    }
    true
}

/// Whether `s` is exactly `pat`.
pub fn str_equals(s: &str, pat: &str) -> (r: bool)
    ensures
        r == (s@ == pat@),
{
    let r = chars_match(s, 0, pat) && s.unicode_len() == pat.unicode_len();
    proof {
        if r {
            assert(s@.subrange(0, pat@.len() as int) =~= s@);
        }
        if s@ == pat@ {
            assert(s@.subrange(0, pat@.len() as int) =~= pat@);
        }
    }
    r
}

/// The built-in texture semantic a name denotes, if any. Exact names come
/// first; the indexed families follow, each a fixed stem and a decimal index.
pub open spec fn spec_builtin_texture(s: Seq<char>) -> Option<TextureSemantic> {
    if s == "Original"@ {
        Some(TextureSemantic::Original)
    } else if s == "Source"@ {
        Some(TextureSemantic::Source)
    } else if spec_has_at(s, "OriginalHistory"@, 0) && spec_parse_index(
        s.skip("OriginalHistory"@.len() as int),
    ) is Some {
        Some(
            TextureSemantic::OriginalHistory(
                spec_parse_index(s.skip("OriginalHistory"@.len() as int))->0,
            ),
        )
    } else if spec_has_at(s, "PassOutput"@, 0) && spec_parse_index(
        s.skip("PassOutput"@.len() as int),
    ) is Some {
        Some(TextureSemantic::PassOutput(spec_parse_index(s.skip("PassOutput"@.len() as int))->0))
    } else if spec_has_at(s, "PassFeedback"@, 0) && spec_parse_index(
        s.skip("PassFeedback"@.len() as int),
    ) is Some {
        Some(
            TextureSemantic::PassFeedback(spec_parse_index(s.skip("PassFeedback"@.len() as int))->0),
        )
    } else {
        None
    }
}

/// The texture semantic `s` denotes under the chain's naming context:
/// built-in names first, then pass aliases, then lookup-texture names.
pub open spec fn spec_resolve_texture(
    s: Seq<char>,
    aliases: Seq<Alias>,
    luts: Seq<Seq<char>>,
) -> Option<TextureSemantic> {
    if spec_builtin_texture(s) is Some {
        spec_builtin_texture(s)
    } else if spec_find_name(spec_alias_names(aliases), s) >= 0 {
        Some(TextureSemantic::PassOutput(aliases[spec_find_name(spec_alias_names(aliases), s)].pass))
    } else if spec_find_name(luts, s) >= 0 {
        Some(TextureSemantic::User(spec_find_name(luts, s) as u32))
    } else {
        None
    }
}

/// The uniform semantic `s` denotes: built-in values first, then the `Size`
/// companion of any resolvable texture name, then user parameters.
pub open spec fn spec_resolve_uniform(
    s: Seq<char>,
    aliases: Seq<Alias>,
    luts: Seq<Seq<char>>,
    params: Seq<Seq<char>>,
) -> Option<UniformSemantic> {
    if s == "MVP"@ {
        Some(UniformSemantic::Mvp)
    } else if s == "OutputSize"@ {
        Some(UniformSemantic::OutputSize)
    } else if s == "FinalViewportSize"@ {
        Some(UniformSemantic::FinalViewportSize)
    } else if s == "FrameCount"@ {
        Some(UniformSemantic::FrameCount)
    } else if s == "FrameDirection"@ {
        Some(UniformSemantic::FrameDirection)
    } else if s.len() >= 4 && s.skip(s.len() - 4) == "Size"@ && spec_resolve_texture(
        s.take(s.len() - 4),
        aliases,
        luts,
    ) is Some {
        Some(
            UniformSemantic::TextureSize(spec_resolve_texture(s.take(s.len() - 4), aliases, luts)->0),
        )
    } else if spec_find_name(params, s) >= 0 {
        Some(UniformSemantic::Parameter(spec_find_name(params, s) as u32))
    } else {
        None
    }
}

/// Position of `name` among the alias names, scanning in declaration order.
pub fn find_alias(aliases: &Vec<Alias>, name: &str) -> (r: Option<usize>)
    ensures
        match r {
            Some(i) => i < aliases@.len() && spec_find_name(spec_alias_names(aliases@), name@)
                == i,
            None => spec_find_name(spec_alias_names(aliases@), name@) == -1,
        },
{
    let n = aliases.len();
    let mut i: usize = 0;
    while i < n
        invariant
            i <= n,
            n == aliases@.len(),
            forall|j: int| 0 <= j < i ==> spec_alias_names(aliases@)[j] != name@,
        decreases n - i,
    {
        if str_equals(aliases[i].name.as_str(), name) {
            proof {
                lemma_find_name_at(spec_alias_names(aliases@), name@, i as int);
            }
            return Some(i);
        }
        i = i + 1;
    }
    proof {
        lemma_find_name_absent(spec_alias_names(aliases@), name@);
    }
    None
}

/// Position of `name` among owned names, scanning in order.
pub fn find_string(names: &Vec<String>, name: &str) -> (r: Option<usize>)
    ensures
        match r {
            Some(i) => i < names@.len() && spec_find_name(spec_name_views(names@), name@) == i,
            None => spec_find_name(spec_name_views(names@), name@) == -1,
        },
{
    let n = names.len();
    let mut i: usize = 0;
    while i < n
        invariant
            i <= n,
            n == names@.len(),
            forall|j: int| 0 <= j < i ==> spec_name_views(names@)[j] != name@,
        decreases n - i,
    {
        if str_equals(names[i].as_str(), name) {
            proof {
                lemma_find_name_at(spec_name_views(names@), name@, i as int);
            }
            return Some(i);
        }
        i = i + 1;
    }
    proof {
        lemma_find_name_absent(spec_name_views(names@), name@);
    }
    None
}

/// The built-in texture semantic `name` denotes, if any.
pub fn builtin_texture(name: &str) -> (r: Option<TextureSemantic>)
    ensures
        r == spec_builtin_texture(name@),
{
    if str_equals(name, "Original") {
        return Some(TextureSemantic::Original);
    }
    if str_equals(name, "Source") {
        return Some(TextureSemantic::Source);
    }
    if chars_match(name, 0, "OriginalHistory") {
        let stem = "OriginalHistory";
        if let Some(k) = parse_index(name, stem.unicode_len()) {
            return Some(TextureSemantic::OriginalHistory(k));
        }
    }
    if chars_match(name, 0, "PassOutput") {
        let stem = "PassOutput";
        if let Some(k) = parse_index(name, stem.unicode_len()) {
            return Some(TextureSemantic::PassOutput(k));
        }
    }
    if chars_match(name, 0, "PassFeedback") {
        let stem = "PassFeedback";
        if let Some(k) = parse_index(name, stem.unicode_len()) {
            return Some(TextureSemantic::PassFeedback(k));
        }
    }
    None
}

/// The texture semantic `name` denotes under the chain's naming context.
pub fn resolve_texture(name: &str, aliases: &Vec<Alias>, luts: &Vec<String>) -> (r: Option<
    TextureSemantic,
>)
    requires
        luts@.len() <= u32::MAX,
    ensures
        r == spec_resolve_texture(name@, aliases@, spec_name_views(luts@)),
{
    if let Some(t) = builtin_texture(name) {
        return Some(t);
    }
    if let Some(i) = find_alias(aliases, name) {
        return Some(TextureSemantic::PassOutput(aliases[i].pass));
    }
    if let Some(i) = find_string(luts, name) {
        return Some(TextureSemantic::User(i as u32));
    }
    None
}

/// The uniform semantic `name` denotes under the chain's naming context.
pub fn resolve_uniform(
    name: &str,
    aliases: &Vec<Alias>,
    luts: &Vec<String>,
    params: &Vec<String>,
) -> (r: Option<UniformSemantic>)
    requires
        luts@.len() <= u32::MAX,
        params@.len() <= u32::MAX,
    ensures
        r == spec_resolve_uniform(
            name@,
            aliases@,
            spec_name_views(luts@),
            spec_name_views(params@),
        ),
{
    if str_equals(name, "MVP") {
        return Some(UniformSemantic::Mvp);
    }
    if str_equals(name, "OutputSize") {
        return Some(UniformSemantic::OutputSize);
    }
    if str_equals(name, "FinalViewportSize") {
        return Some(UniformSemantic::FinalViewportSize);
    }
    if str_equals(name, "FrameCount") {
        return Some(UniformSemantic::FrameCount);
    }
    if str_equals(name, "FrameDirection") {
        return Some(UniformSemantic::FrameDirection);
    }
    let n = name.unicode_len();
    if n >= 4 && chars_match(name, n - 4, "Size") {
        proof {
            reveal_strlit("Size");
            assert(name@.skip(n - 4) =~= name@.subrange(n - 4, n - 4 + "Size"@.len()));
        }
        let stem = name.substring_char(0, n - 4);
        proof {
            assert(stem@ =~= name@.take(n - 4));
        }
        if let Some(t) = resolve_texture(stem, aliases, luts) {
            return Some(UniformSemantic::TextureSize(t));
        }
    } else {
        proof {
            reveal_strlit("Size");
            if name@.len() >= 4 && name@.skip(name@.len() - 4) == "Size"@ {
                assert(name@.skip(name@.len() - 4) =~= name@.subrange(
                    name@.len() - 4,
                    name@.len() - 4 + "Size"@.len(),
                ));
            }
        }
    }
    if let Some(i) = find_string(params, name) {
        return Some(UniformSemantic::Parameter(i as u32));
    }
    None
}

} // verus!

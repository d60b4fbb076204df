//! Regular-expression matching through the regex crate.

use vstd::prelude::*;

verus! {

/// Whether the regex crate accepts a pattern.
pub uninterp spec fn pattern_compiles(p: Seq<char>) -> bool;

/// Whether the compiled pattern matches somewhere in the text.
pub uninterp spec fn regex_finds(p: Seq<char>, t: Seq<char>) -> bool;

/// For the leftmost-first match of the pattern in the text, the text of each
/// group (the whole match first; `None` for a group that took no part), or
/// `None` when nothing matches.
pub uninterp spec fn regex_groups(p: Seq<char>, t: Seq<char>) -> Option<Seq<Option<Seq<char>>>>;

/// The characters of optional strings.
pub open spec fn opt_views(v: Seq<Option<String>>) -> Seq<Option<Seq<char>>> {
    v.map_values(|o: Option<String>| match o { Some(s) => Some(s@), None => None })
}

/// Relies on `regex::Regex::new` and `regex::Regex::is_match`: whether the pattern
/// compiles and whether it matches depend on pattern and text alone; on a compile
/// failure, the error's description.
#[verifier::external_body]
fn search(p: &str, text: &str) -> (r: Result<bool, String>)
    ensures
        r is Ok <==> pattern_compiles(p@),
        r matches Ok(b) ==> b == regex_finds(p@, text@),
{
    regex::Regex::new(p).map(|re| re.is_match(text)).map_err(|e| format!("{e:?}"))
}

/// Relies on `regex::Regex::new` and `regex::Regex::captures`: the groups of the
/// first match, as `regex_groups` names them; on a compile failure, the error's description.
#[verifier::external_body]
fn first_captures(p: &str, text: &str) -> (r: Result<Option<Vec<Option<String>>>, String>)
    ensures
        r is Ok <==> pattern_compiles(p@),
        r matches Ok(g) ==> match g {
            Some(v) => regex_groups(p@, text@) == Some(opt_views(v@)),
            None => regex_groups(p@, text@) is None,
        },
{
    let re = regex::Regex::new(p).map_err(|e| format!("{e:?}"))?;
    Ok(re.captures(text).map(|c| c.iter().map(|m| m.map(|m| m.as_str().to_string())).collect()))
}

/// The texts of the groups that took part, in group order.
pub open spec fn present(groups: Seq<Option<Seq<char>>>) -> Seq<Seq<char>>
    decreases groups.len(),
{
    if groups.len() == 0 {
        seq![]
    } else {
        present(groups.drop_last()) + match groups.last() {
            Some(s) => seq![s],
            None => seq![],
        }
    }
}

/// The texts of the groups that took part, in group order.
pub fn present_groups(groups: Vec<Option<String>>) -> (r: Vec<String>)
    ensures
        r@.map_values(|s: String| s@) == present(opt_views(groups@)),
{
    let mut r: Vec<String> = Vec::new();
    let mut i: usize = 0;
    let ghost g = opt_views(groups@);
    while i < groups.len()
        invariant
            g == opt_views(groups@),
            i <= groups@.len(),
            r@.map_values(|s: String| s@) == present(g.take(i as int)),
        decreases groups@.len() - i,
    {
        let item = groups[i].clone();
        assert(g.take(i + 1).drop_last() =~= g.take(i as int));
        match item {
            Some(s) => {
                proof {
                    assert(g[i as int] == Some(s@)) by {
                        match groups@[i as int] {
                            Some(x) => {}
                            None => {}
                        }
                    }
                }
                r.push(s);
            }
            None => {}
        }
        i = i + 1;
        assert(r@.map_values(|s: String| s@) =~= present(g.take(i as int)));
    }
    assert(g.take(i as int) =~= g);
    r
}

/// Whether `pattern` matches somewhere in `text`; the compile error's description
/// when the pattern is not accepted.
pub fn regex_is_match(pattern: &str, text: &str) -> (r: Result<bool, String>)
    ensures
        r is Ok <==> pattern_compiles(pattern@),
        r matches Ok(b) ==> b == regex_finds(pattern@, text@),
{
    search(pattern, text)
}

/// The texts of the groups (the whole match first) of the first match of
/// `pattern` in `text`, the groups that took no part left out, empty when
/// nothing matches; the compile error's description when the pattern is not accepted.
pub fn regex_captures(pattern: &str, text: &str) -> (r: Result<Vec<String>, String>)
    ensures
        r is Ok <==> pattern_compiles(pattern@),
        r matches Ok(v) ==> v@.map_values(|s: String| s@) == match regex_groups(pattern@, text@) {
            Some(g) => present(g),
            None => seq![],
        },
{
    match first_captures(pattern, text)? {
        Some(groups) => Ok(present_groups(groups)),
        None => {
            let v: Vec<String> = Vec::new();
            assert(v@.map_values(|s: String| s@) =~= Seq::<Seq<char>>::empty());
            Ok(v)
        }
    }
}

} // verus!

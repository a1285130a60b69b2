use vstd::prelude::*;
use vstd::string::StringExecFns;
use crate::{EngineError, ErrorKind};
use crate::text::{chars_of, string_of, first_solid_from, is_white_space_char};

verus! {

/// One character of the line scan: a newline closes the line being read, without a
/// carriage return that ends it.
pub open spec fn line_step(done: Seq<Seq<char>>, cur: Seq<char>, c: char) -> (Seq<Seq<char>>, Seq<char>) {
    if c == '\n' {
        (done.push(strip_cr(cur)), Seq::empty())
    } else {
        (done, cur.push(c))
    }
}

pub open spec fn strip_cr(l: Seq<char>) -> Seq<char> {
    if l.len() > 0 && l.last() == '\r' {
        l.drop_last()
    } else {
        l
    }
}

pub open spec fn scan_lines(s: Seq<char>) -> (Seq<Seq<char>>, Seq<char>)
    decreases s.len(),
{
    if s.len() == 0 {
        (Seq::empty(), Seq::empty())
    } else {
        let p = scan_lines(s.drop_last());
        line_step(p.0, p.1, s.last())
    }
}

/// The lines of a text: split at `\n` or `\r\n`; a last line ending adds no empty line.
pub open spec fn lines(s: Seq<char>) -> Seq<Seq<char>> {
    let p = scan_lines(s);
    if p.1.len() > 0 {
        p.0.push(p.1)
    } else {
        p.0
    }
}

/// The lines joined by single newlines.
pub open spec fn join_lines(ls: Seq<Seq<char>>) -> Seq<char>
    decreases ls.len(),
{
    if ls.len() == 0 {
        Seq::empty()
    } else if ls.len() == 1 {
        ls[0]
    } else {
        join_lines(ls.drop_last()) + seq!['\n'] + ls.last()
    }
}

/// The path with each single quote doubled, as YAML's single-quoted style asks.
pub open spec fn quote_escaped(s: Seq<char>) -> Seq<char>
    decreases s.len(),
{
    if s.len() == 0 {
        s
    } else if s.last() == '\'' {
        quote_escaped(s.drop_last()) + seq!['\'', '\'']
    } else {
        quote_escaped(s.drop_last()).push(s.last())
    }
}

/// The path as a single-quoted YAML scalar.
pub open spec fn yaml_quoted(s: Seq<char>) -> Seq<char> {
    seq!['\''] + quote_escaped(s) + seq!['\'']
}

/// The path with each backslash turned into a forward slash.
pub open spec fn forward_slashed(s: Seq<char>) -> Seq<char> {
    Seq::new(s.len(), |i: int| if s[i] == '\\' { '/' } else { s[i] })
}

pub open spec fn starts_with(s: Seq<char>, prefix: Seq<char>) -> bool {
    prefix.len() <= s.len() && s.take(prefix.len() as int) == prefix
}

/// Which path key a line sets, by its text after the indent: 1 for the weights, 2 for the
/// weights without voice cloning, 3 for the tokenizer, 0 for none.
pub open spec fn line_key(line: Seq<char>) -> nat {
    let t = line.skip(first_solid_from(line, 0));
    if starts_with(t, "weights_path:"@) {
        1
    } else if starts_with(t, "weights_path_without_voice_cloning:"@) {
        2
    } else if starts_with(t, "tokenizer_path:"@) {
        3
    } else {
        0
    }
}

/// A template line with the path it sets replaced, indent kept; other lines as they are.
pub open spec fn rewritten_line(line: Seq<char>, weights: Seq<char>, tokenizer: Seq<char>) -> Seq<char> {
    let indent = line.take(first_solid_from(line, 0));
    let k = line_key(line);
    if k == 1 {
        indent + "weights_path: "@ + yaml_quoted(weights)
    } else if k == 2 {
        indent + "weights_path_without_voice_cloning: "@ + yaml_quoted(weights)
    } else if k == 3 {
        indent + "tokenizer_path: "@ + yaml_quoted(tokenizer)
    } else {
        line
    }
}

/// Some line of the template sets the key `k`.
pub open spec fn sets_key(ls: Seq<Seq<char>>, k: nat) -> bool {
    exists|i: int| 0 <= i < ls.len() && line_key(#[trigger] ls[i]) == k
}

fn line_chars(s: &Vec<char>) -> (r: Vec<Vec<char>>)
    ensures
        r@.map_values(|l: Vec<char>| l@) == lines(s@),
{
    let mut done: Vec<Vec<char>> = Vec::new();
    let mut cur: Vec<char> = Vec::new();
    let mut i: usize = 0;
    while i < s.len()
        invariant
            i <= s@.len(),
            (done@.map_values(|l: Vec<char>| l@), cur@) == scan_lines(s@.take(i as int)),
        decreases s@.len() - i,
    {
        assert(s@.take(i + 1).drop_last() =~= s@.take(i as int));
        let c = s[i];
        if c == '\n' {
            if cur.len() > 0 && cur[cur.len() - 1] == '\r' {
                cur.pop();
            }
            let ghost d0 = done@;
            done.push(cur);
            assert(done@.map_values(|l: Vec<char>| l@) =~= d0.map_values(|l: Vec<char>| l@).push(
                done@[done@.len() - 1]@,
            ));
            cur = Vec::new();
            assert(cur@ =~= Seq::<char>::empty());
        } else {
            cur.push(c);
        }
        i = i + 1;
    }
    assert(s@.take(s@.len() as int) =~= s@);
    if cur.len() > 0 {
        let ghost d0 = done@;
        done.push(cur);
        assert(done@.map_values(|l: Vec<char>| l@) =~= d0.map_values(|l: Vec<char>| l@).push(
            done@[done@.len() - 1]@,
        ));
    }
    done
}

fn push_all(out: &mut Vec<char>, s: &Vec<char>)
    ensures
        final(out)@ == old(out)@ + s@,
{
    let mut i: usize = 0;
    while i < s.len()
        invariant
            i <= s@.len(),
            out@ == old(out)@ + s@.take(i as int),
        decreases s@.len() - i,
    {
        out.push(s[i]);
        assert(out@ =~= old(out)@ + s@.take(i + 1));
        i = i + 1;
    }
    assert(s@.take(s@.len() as int) =~= s@);
}

fn quoted_chars(path: &Vec<char>) -> (r: Vec<char>)
    ensures
        r@ == yaml_quoted(path@),
{
    let mut out: Vec<char> = Vec::new();
    out.push('\'');
    let mut i: usize = 0;
    while i < path.len()
        invariant
            i <= path@.len(),
            out@ == seq!['\''] + quote_escaped(path@.take(i as int)),
        decreases path@.len() - i,
    {
        assert(path@.take(i + 1).drop_last() =~= path@.take(i as int));
        if path[i] == '\'' {
            out.push('\'');
            out.push('\'');
            assert(out@ =~= seq!['\''] + quote_escaped(path@.take(i + 1)));
        } else {
            out.push(path[i]);
            assert(out@ =~= seq!['\''] + quote_escaped(path@.take(i + 1)));
        }
        i = i + 1;
    }
    assert(path@.take(path@.len() as int) =~= path@);
    out.push('\'');
    assert(out@ =~= yaml_quoted(path@));
    out
}

/// The path as a single-quoted YAML scalar, single quotes doubled.
pub fn yaml_quote_path(path: &str) -> (r: String)
    ensures
        r@ == yaml_quoted(path@),
{
    string_of(&quoted_chars(&chars_of(path)))
}

/// The path with forward slashes only, as the YAML config wants it.
pub fn normalize_yaml_path(path: &str) -> (r: String)
    ensures
        r@ == forward_slashed(path@),
{
    let v = chars_of(path);
    let mut out: Vec<char> = Vec::new();
    let mut i: usize = 0;
    while i < v.len()
        invariant
            i <= v@.len(),
            out@ == forward_slashed(v@).take(i as int),
        decreases v@.len() - i,
    {
        if v[i] == '\\' {
            out.push('/');
        } else {
            out.push(v[i]);
        }
        assert(out@ =~= forward_slashed(v@).take(i + 1));
        i = i + 1;
    }
    assert(out@ =~= forward_slashed(v@));
    string_of(&out)
}

fn has_prefix(s: &Vec<char>, from: usize, prefix: &Vec<char>) -> (r: bool)
    requires
        from <= s@.len(),
    ensures
        r == starts_with(s@.skip(from as int), prefix@),
{
    if prefix.len() > s.len() - from {
        return false;
    }
    let mut i: usize = 0;
    while i < prefix.len()
        invariant
            i <= prefix@.len(),
            from + prefix@.len() <= s@.len(),
            s@.len() == s.len(),
            forall|j: int| 0 <= j < i ==> s@[from + j] == prefix@[j],
        decreases prefix@.len() - i,
    {
        if s[from + i] != prefix[i] {
            assert(s@.skip(from as int).take(prefix@.len() as int)[i as int] != prefix@[i as int]);
            return false;
        }
        i = i + 1;
    }
    assert(s@.skip(from as int).take(prefix@.len() as int) =~= prefix@);
    true
}

fn rewrite_one(line: &Vec<char>, weights: &Vec<char>, tokenizer: &Vec<char>) -> (r: (Vec<char>, u8))
    ensures
        r.0@ == rewritten_line(line@, weights@, tokenizer@),
        r.1 as nat == line_key(line@),
{
    let n = line.len();
    let mut a: usize = 0;
    while a < n && is_white_space_char(line[a])
        invariant
            a <= n,
            n == line@.len(),
            first_solid_from(line@, 0) == first_solid_from(line@, a as int),
        decreases n - a,
    {
        a = a + 1;
    }
    proof {
        if a < n {
            assert(first_solid_from(line@, a as int) == a);
        }
    }
    let key_w = chars_of("weights_path:");
    let key_wn = chars_of("weights_path_without_voice_cloning:");
    let key_t = chars_of("tokenizer_path:");
    let k: u8 = if has_prefix(line, a, &key_w) {
        1
    } else if has_prefix(line, a, &key_wn) {
        2
    } else if has_prefix(line, a, &key_t) {
        3
    } else {
        0
    };
    if k == 0 {
        return (line.clone(), 0);
    }
    let mut out: Vec<char> = Vec::new();
    let mut i: usize = 0;
    while i < a
        invariant
            i <= a <= n,
            n == line@.len(),
            out@ == line@.take(i as int),
        decreases a - i,
    {
        out.push(line[i]);
        assert(out@ =~= line@.take(i + 1));
        i = i + 1;
    }
    let head = if k == 1 {
        chars_of("weights_path: ")
    } else if k == 2 {
        chars_of("weights_path_without_voice_cloning: ")
    } else {
        chars_of("tokenizer_path: ")
    };
    push_all(&mut out, &head);
    let q = if k == 3 {
        quoted_chars(tokenizer)
    } else {
        quoted_chars(weights)
    };
    push_all(&mut out, &q);
    (out, k)
}

/// Points the model config template at the given weights and tokenizer files: each line
/// that sets one of the three path keys is replaced, indent kept, by the key and the
/// quoted path. A template without all three keys is refused.
pub fn rewrite_config_paths(template: &str, weights_path: &str, tokenizer_path: &str) -> (r: Result<
    String,
    EngineError,
>)
    ensures
        ({
            let ls = lines(template@);
            &&& r is Ok <==> (sets_key(ls, 1) && sets_key(ls, 2) && sets_key(ls, 3))
            &&& r matches Ok(s) ==> s@ == join_lines(
                ls.map_values(|l: Seq<char>| rewritten_line(l, weights_path@, tokenizer_path@)),
            )
            &&& r matches Err(e) ==> e.kind == ErrorKind::ConfigurationError
        }),
{
    let t = chars_of(template);
    let w = chars_of(weights_path);
    let tk = chars_of(tokenizer_path);
    let ls = line_chars(&t);
    let ghost lss = lines(template@);
    let ghost outs = lss.map_values(|l: Seq<char>| rewritten_line(l, weights_path@, tokenizer_path@));
    let mut has_w = false;
    let mut has_wn = false;
    let mut has_t = false;
    let mut out: Vec<char> = Vec::new();
    let mut i: usize = 0;
    while i < ls.len()
        invariant
            i <= ls@.len(),
            ls@.map_values(|l: Vec<char>| l@) == lss,
            outs == lss.map_values(|l: Seq<char>| rewritten_line(l, weights_path@, tokenizer_path@)),
            w@ == weights_path@,
            tk@ == tokenizer_path@,
            out@ == join_lines(outs.take(i as int)),
            has_w == sets_key(lss.take(i as int), 1),
            has_wn == sets_key(lss.take(i as int), 2),
            has_t == sets_key(lss.take(i as int), 3),
        decreases ls@.len() - i,
    {
        let (line, k) = rewrite_one(&ls[i], &w, &tk);
        assert(lss[i as int] == ls@[i as int]@);
        proof {
            let p = lss.take(i + 1);
            assert(p.drop_last() =~= lss.take(i as int));
            assert forall|kk: nat| sets_key(p, kk) == (sets_key(lss.take(i as int), kk) || line_key(
                lss[i as int],
            ) == kk) by {
                if sets_key(p, kk) {
                    let j = choose|j: int| 0 <= j < p.len() && line_key(#[trigger] p[j]) == kk;
                    if j < i {
                        assert(lss.take(i as int)[j] == p[j]);
                    }
                }
                if sets_key(lss.take(i as int), kk) {
                    let j = choose|j: int| 0 <= j < i && line_key(#[trigger] lss.take(i as int)[j]) == kk;
                    assert(p[j] == lss.take(i as int)[j]);
                }
                if line_key(lss[i as int]) == kk {
                    assert(p[i as int] == lss[i as int]);
                }
            }
            assert(outs.take(i + 1).drop_last() =~= outs.take(i as int));
        }
        if i > 0 {
            out.push('\n');
        }
        push_all(&mut out, &line);
        if k == 1 {
            has_w = true;
        } else if k == 2 {
            has_wn = true;
        } else if k == 3 {
            has_t = true;
        }
        i = i + 1;
    }
    assert(lss.take(ls@.len() as int) =~= lss);
    assert(outs.take(ls@.len() as int) =~= outs);
    if !has_w || !has_wn || !has_t {
        return Err(
            EngineError {
                kind: ErrorKind::ConfigurationError,
                message: String::from_str(
                    "Kyutai config template is missing required path keys (weights/tokenizer)",
                ),
            },
        );
    }
    Ok(string_of(&out))
}

} // verus!

use vstd::prelude::*;

verus! {

/// The Unicode `White_Space` property, which `char::is_whitespace` tests.
pub open spec fn is_white_space(c: char) -> bool {
    let u = c as u32;
    (9 <= u && u <= 13) || u == 32 || u == 0x85 || u == 0xa0 || u == 0x1680 || (0x2000 <= u
        && u <= 0x200a) || u == 0x2028 || u == 0x2029 || u == 0x202f || u == 0x205f || u == 0x3000
}

/// Index of the first character at or after `i` that is not white space.
pub open spec fn first_solid_from(s: Seq<char>, i: int) -> int
    decreases s.len() - i,
{
    if i < 0 || i >= s.len() {
        s.len() as int
    } else if is_white_space(s[i]) {
        first_solid_from(s, i + 1)
    } else {
        i
    }
}

/// One past the last character before `j` that is not white space (0 when there is none).
pub open spec fn solid_end_before(s: Seq<char>, j: int) -> int
    decreases j,
{
    if j <= 0 || j > s.len() {
        0
    } else if is_white_space(s[j - 1]) {
        solid_end_before(s, j - 1)
    } else {
        j
    }
}

/// The text without its leading and trailing white space.
pub open spec fn trim(s: Seq<char>) -> Seq<char> {
    let a = first_solid_from(s, 0);
    let b = solid_end_before(s, s.len() as int);
    if b <= a {
        Seq::empty()
    } else {
        s.subrange(a, b)
    }
}

/// One character of the word scan: white space closes the word being read.
pub open spec fn word_step(done: Seq<Seq<char>>, cur: Seq<char>, c: char) -> (
    Seq<Seq<char>>,
    Seq<char>,
) {
    if is_white_space(c) {
        if cur.len() > 0 {
            (done.push(cur), Seq::empty())
        } else {
            (done, cur)
        }
    } else {
        (done, cur.push(c))
    }
}

/// The closed words and the word still open after reading `s` from the left.
pub open spec fn scan_words(s: Seq<char>) -> (Seq<Seq<char>>, Seq<char>)
    decreases s.len(),
{
    if s.len() == 0 {
        (Seq::empty(), Seq::empty())
    } else {
        let p = scan_words(s.drop_last());
        word_step(p.0, p.1, s.last())
    }
}

/// The maximal runs of characters that are not white space, in order.
pub open spec fn words(s: Seq<char>) -> Seq<Seq<char>> {
    let p = scan_words(s);
    if p.1.len() > 0 {
        p.0.push(p.1)
    } else {
        p.0
    }
}

pub open spec fn char_seqs(v: Seq<Vec<char>>) -> Seq<Seq<char>> {
    v.map_values(|x: Vec<char>| x@)
}

pub fn is_white_space_char(c: char) -> (r: bool)
    ensures
        r == is_white_space(c),
{
    let u = c as u32;
    (9 <= u && u <= 13) || u == 32 || u == 0x85 || u == 0xa0 || u == 0x1680 || (0x2000 <= u
        && u <= 0x200a) || u == 0x2028 || u == 0x2029 || u == 0x202f || u == 0x205f || u == 0x3000
}

/// Relies on `str::chars`: the characters of the string, in order.
#[verifier::external_body]
pub(crate) fn chars_of(s: &str) -> (r: Vec<char>)
    ensures
        r@ == s@,
{
    s.chars().collect()
}

/// Relies on `String`'s `FromIterator<&char>`: the string made of these characters.
#[verifier::external_body]
pub(crate) fn string_of(v: &Vec<char>) -> (r: String)
    ensures
        r@ == v@,
{
    v.iter().collect()
}

/// The characters of `v` without leading and trailing white space.
pub fn trim_chars(v: &Vec<char>) -> (r: Vec<char>)
    ensures
        r@ == trim(v@),
{
    let n = v.len();
    let mut a: usize = 0;
    while a < n && is_white_space_char(v[a])
        invariant
            a <= n,
            n == v@.len(),
            first_solid_from(v@, 0) == first_solid_from(v@, a as int),
        decreases n - a,
    {
        a = a + 1;
    }
    let mut b: usize = n;
    while b > 0 && is_white_space_char(v[b - 1])
        invariant
            b <= n,
            n == v@.len(),
            solid_end_before(v@, n as int) == solid_end_before(v@, b as int),
        decreases b,
    {
        b = b - 1;
    }
    let mut r: Vec<char> = Vec::new();
    if a < b {
        let mut i: usize = a;
        while i < b
            invariant
                a <= i <= b <= n,
                n == v@.len(),
                r@ == v@.subrange(a as int, i as int),
            decreases b - i,
        {
            r.push(v[i]);
            assert(r@ =~= v@.subrange(a as int, i + 1));
            i = i + 1;
        }
    }
    proof {
        lemma_trim_bounds(v@, a as int, b as int);
    }
    r
}

proof fn lemma_trim_bounds(s: Seq<char>, a: int, b: int)
    requires
        0 <= a <= s.len(),
        0 <= b <= s.len(),
        a < s.len() ==> !is_white_space(s[a]),
        b > 0 ==> !is_white_space(s[b - 1]),
        first_solid_from(s, 0) == first_solid_from(s, a),
        solid_end_before(s, s.len() as int) == solid_end_before(s, b),
    ensures
        first_solid_from(s, 0) == a,
        solid_end_before(s, s.len() as int) == b,
{
}

/// The words of `v`, each as its characters.
pub fn word_chars(v: &Vec<char>) -> (r: Vec<Vec<char>>)
    ensures
        char_seqs(r@) == words(v@),
{
    let n = v.len();
    let mut done: Vec<Vec<char>> = Vec::new();
    let mut cur: Vec<char> = Vec::new();
    let mut i: usize = 0;
    while i < n
        invariant
            i <= n,
            n == v@.len(),
            (char_seqs(done@), cur@) == scan_words(v@.take(i as int)),
        decreases n - i,
    {
        let c = v[i];
        assert(v@.take(i + 1).drop_last() =~= v@.take(i as int));
        if is_white_space_char(c) {
            if cur.len() > 0 {
                let ghost d0 = done@;
                done.push(cur);
                assert(char_seqs(done@) =~= char_seqs(d0).push(cur@));
                cur = Vec::new();
                assert(cur@ =~= Seq::<char>::empty());
            }
        } else {
            cur.push(c);
        }
        i = i + 1;
    }
    assert(v@.take(n as int) =~= v@);
    if cur.len() > 0 {
        let ghost d0 = done@;
        done.push(cur);
        assert(char_seqs(done@) =~= char_seqs(d0).push(cur@));
    }
    done
}

/// A word longer than the limit, cut into pieces of `max` characters; the last piece
/// holds what remains.
pub open spec fn char_pieces(w: Seq<char>, max: nat) -> Seq<Seq<char>>
    decreases w.len(),
{
    if max == 0 || w.len() <= max {
        seq![w]
    } else {
        seq![w.take(max as int)] + char_pieces(w.skip(max as int), max)
    }
}

/// The open line, closed if it holds anything.
pub open spec fn close_line(out: Seq<Seq<char>>, cur: Seq<char>) -> Seq<Seq<char>> {
    if cur.len() > 0 {
        out.push(cur)
    } else {
        out
    }
}

/// One word of the packing: it joins the open line when the line stays within `max`
/// characters; a word that alone exceeds `max` is cut by characters.
pub open spec fn pack_step(out: Seq<Seq<char>>, cur: Seq<char>, w: Seq<char>, max: nat) -> (
    Seq<Seq<char>>,
    Seq<char>,
) {
    if w.len() > max {
        (close_line(out, cur) + char_pieces(w, max), Seq::empty())
    } else if cur.len() > 0 && cur.len() + 1 + w.len() > max {
        (out.push(cur), w)
    } else if cur.len() == 0 {
        (out, w)
    } else {
        (out, cur + seq![' '] + w)
    }
}

/// The closed lines and the open line after packing `ws` from the left.
pub open spec fn pack_scan(ws: Seq<Seq<char>>, max: nat) -> (Seq<Seq<char>>, Seq<char>)
    decreases ws.len(),
{
    if ws.len() == 0 {
        (Seq::empty(), Seq::empty())
    } else {
        let p = pack_scan(ws.drop_last(), max);
        pack_step(p.0, p.1, ws.last(), max)
    }
}

/// The words of `s`, packed greedily into lines of at most `max` characters joined by
/// single spaces.
pub open spec fn split_by_words(s: Seq<char>, max: nat) -> Seq<Seq<char>> {
    let p = pack_scan(words(s), max);
    close_line(p.0, p.1)
}

fn push_char_pieces(out: &mut Vec<Vec<char>>, w: &Vec<char>, max: usize)
    requires
        max >= 1,
        w@.len() > max,
    ensures
        char_seqs(final(out)@) == char_seqs(old(out)@) + char_pieces(w@, max as nat),
{
    let n = w.len();
    let mut start: usize = 0;
    assert(w@.skip(0) =~= w@);
    while n - start > max
        invariant
            max >= 1,
            n == w@.len(),
            start < n,
            start % max == 0,
            char_seqs(out@) + char_pieces(w@.skip(start as int), max as nat) == char_seqs(
                old(out)@,
            ) + char_pieces(w@, max as nat),
        decreases n - start,
    {
        let mut piece: Vec<char> = Vec::new();
        let mut i: usize = start;
        while i < start + max
            invariant
                start <= i <= start + max,
                start + max < n,
                n == w@.len(),
                piece@ == w@.subrange(start as int, i as int),
            decreases start + max - i,
        {
            piece.push(w[i]);
            assert(piece@ =~= w@.subrange(start as int, i + 1));
            i = i + 1;
        }
        let ghost rest = w@.skip(start as int);
        assert(piece@ =~= rest.take(max as int));
        assert(rest.skip(max as int) =~= w@.skip(start + max));
        let ghost o0 = out@;
        out.push(piece);
        assert(char_seqs(out@) =~= char_seqs(o0).push(piece@));
        assert(char_seqs(out@) + char_pieces(w@.skip(start + max), max as nat) =~= char_seqs(o0)
            + char_pieces(rest, max as nat));
        start = start + max;
        proof {
            vstd::arithmetic::div_mod::lemma_mod_adds(start - max, max as int, max as int);
        }
    }
    let mut last: Vec<char> = Vec::new();
    let mut i: usize = start;
    while i < n
        invariant
            start <= i <= n,
            n == w@.len(),
            last@ == w@.subrange(start as int, i as int),
        decreases n - i,
    {
        last.push(w[i]);
        assert(last@ =~= w@.subrange(start as int, i + 1));
        i = i + 1;
    }
    assert(last@ =~= w@.skip(start as int));
    let ghost o1 = out@;
    out.push(last);
    assert(char_seqs(out@) =~= char_seqs(o1).push(last@));
    assert(char_pieces(w@.skip(start as int), max as nat) =~= seq![last@]);
}

/// The words of `v` packed into lines of at most `max` characters, each as its characters.
pub fn split_chars_by_words(v: &Vec<char>, max: usize) -> (r: Vec<Vec<char>>)
    requires
        max >= 1,
    ensures
        char_seqs(r@) == split_by_words(v@, max as nat),
{
    let ws = word_chars(v);
    let ghost wss = words(v@);
    let mut out: Vec<Vec<char>> = Vec::new();
    let mut cur: Vec<char> = Vec::new();
    let mut k: usize = 0;
    while k < ws.len()
        invariant
            max >= 1,
            k <= ws@.len(),
            char_seqs(ws@) == wss,
            cur@.len() <= max,
            (char_seqs(out@), cur@) == pack_scan(wss.take(k as int), max as nat),
        decreases ws@.len() - k,
    {
        assert(wss.take(k + 1).drop_last() =~= wss.take(k as int));
        assert(wss[k as int] == ws@[k as int]@);
        let w = &ws[k];
        if w.len() > max {
            if cur.len() > 0 {
                let ghost o0 = out@;
                out.push(cur);
                assert(char_seqs(out@) =~= char_seqs(o0).push(cur@));
            }
            cur = Vec::new();
            push_char_pieces(&mut out, w, max);
            assert(cur@ =~= Seq::<char>::empty());
        } else if cur.len() > 0 && w.len() >= max - cur.len() {
            let ghost o0 = out@;
            out.push(cur);
            assert(char_seqs(out@) =~= char_seqs(o0).push(cur@));
            cur = w.clone();
        } else if cur.len() == 0 {
            cur = w.clone();
        } else {
            let ghost c0 = cur@;
            cur.push(' ');
            let mut j: usize = 0;
            while j < w.len()
                invariant
                    j <= w@.len(),
                    cur@ == c0 + seq![' '] + w@.take(j as int),
                decreases w@.len() - j,
            {
                cur.push(w[j]);
                assert(cur@ =~= c0 + seq![' '] + w@.take(j + 1));
                j = j + 1;
            }
            assert(w@.take(w@.len() as int) =~= w@);
        }
        k = k + 1;
    }
    assert(wss.take(ws@.len() as int) =~= wss);
    if cur.len() > 0 {
        let ghost o0 = out@;
        out.push(cur);
        assert(char_seqs(out@) =~= char_seqs(o0).push(cur@));
    }
    out
}

/// Splits `input` on white space into lines of at most `max_chars` characters, words joined
/// by single spaces; a word longer than `max_chars` is cut on character boundaries.
pub fn split_long_segment_by_words(input: &str, max_chars: usize) -> (r: Vec<String>)
    requires
        max_chars >= 1,
    ensures
        r@.map_values(|x: String| x@) == split_by_words(input@, max_chars as nat),
{
    let v = chars_of(input);
    let lines = split_chars_by_words(&v, max_chars);
    strings_of(&lines)
}

/// Each character vector as a string.
pub fn strings_of(lines: &Vec<Vec<char>>) -> (r: Vec<String>)
    ensures
        r@.map_values(|x: String| x@) == char_seqs(lines@),
{
    let mut r: Vec<String> = Vec::new();
    let mut i: usize = 0;
    while i < lines.len()
        invariant
            i <= lines@.len(),
            r@.map_values(|x: String| x@) == char_seqs(lines@.take(i as int)),
        decreases lines@.len() - i,
    {
        let s = string_of(&lines[i]);
        let ghost r0 = r@;
        r.push(s);
        assert(r@.map_values(|x: String| x@) =~= r0.map_values(|x: String| x@).push(s@));
        assert(char_seqs(lines@.take(i + 1)) =~= char_seqs(lines@.take(i as int)).push(
            lines@[i as int]@,
        ));
        i = i + 1;
    }
    assert(lines@.take(lines@.len() as int) =~= lines@);
    r
}

/// Most characters in the first chunk, so that audio starts soon.
pub const FIRST_CHUNK_MAX_CHARS: usize = 200;

/// Most sentences in the first chunk.
pub const FIRST_CHUNK_MAX_SENTENCES: usize = 1;

/// Most sentences in any later chunk, as the reader uses it.
pub const MAX_SENTENCES_PER_CHUNK: usize = 1;

/// The smallest character limit of the first chunk.
pub const MIN_CHUNK_CHARS: usize = 100;

/// The character limit of the first chunk.
pub open spec fn first_chunk_char_limit(max_chars: nat) -> nat {
    if max_chars < 200 {
        if max_chars < 100 {
            100
        } else {
            max_chars
        }
    } else {
        200
    }
}

/// The sentence limit of later chunks.
pub open spec fn sentence_limit(max_sentences: nat) -> nat {
    if max_sentences < 1 {
        1
    } else {
        max_sentences
    }
}

/// Where the grouping stands: chunks made so far, the chunk being grouped, and how many
/// sentences it holds.
pub struct GroupScan {
    pub out: Seq<Seq<char>>,
    pub grouped: Seq<char>,
    pub count: nat,
}

/// The group closed: its trimmed text becomes a chunk unless it is blank.
pub open spec fn flush_group(st: GroupScan) -> GroupScan {
    GroupScan {
        out: if trim(st.grouped).len() == 0 {
            st.out
        } else {
            st.out.push(trim(st.grouped))
        },
        grouped: Seq::empty(),
        count: 0,
    }
}

/// A sentence that begins a chunk: the first chunk while none is made yet, under the first
/// chunk's limit, later ones under `max_chars`; a sentence over that limit is cut by words.
pub open spec fn start_chunk(st: GroupScan, t: Seq<char>, max_chars: nat) -> GroupScan {
    let cl = if st.out.len() == 0 {
        first_chunk_char_limit(max_chars)
    } else {
        max_chars
    };
    if t.len() > cl {
        GroupScan { out: st.out + split_by_words(t, cl), grouped: Seq::empty(), count: 0 }
    } else {
        GroupScan { out: st.out, grouped: t, count: 1 }
    }
}

/// One sentence of the grouping. It joins the open group while the group stays within the
/// sentence and character limits of the chunk it will be (one sentence and the first
/// chunk's limit for the first chunk); otherwise the group is closed and the sentence
/// begins the next chunk.
pub open spec fn group_step(st: GroupScan, sentence: Seq<char>, max_chars: nat, max_sentences: nat) -> GroupScan {
    let t = trim(sentence);
    let first = st.out.len() == 0;
    let sl = if first {
        1
    } else {
        sentence_limit(max_sentences)
    };
    let cl = if first {
        first_chunk_char_limit(max_chars)
    } else {
        max_chars
    };
    if t.len() == 0 {
        st
    } else if st.grouped.len() == 0 {
        start_chunk(st, t, max_chars)
    } else if st.count < sl && st.grouped.len() + 1 + t.len() <= cl {
        GroupScan { out: st.out, grouped: st.grouped + seq![' '] + t, count: st.count + 1 }
    } else {
        start_chunk(flush_group(st), t, max_chars)
    }
}

/// The grouping after the sentences `ss`, read from the left.
pub open spec fn group_scan(ss: Seq<Seq<char>>, max_chars: nat, max_sentences: nat) -> GroupScan
    decreases ss.len(),
{
    if ss.len() == 0 {
        GroupScan { out: Seq::empty(), grouped: Seq::empty(), count: 0 }
    } else {
        group_step(
            group_scan(ss.drop_last(), max_chars, max_sentences),
            ss.last(),
            max_chars,
            max_sentences,
        )
    }
}

/// The chunks made from the sentences `split` of `text`: sentences are trimmed, blank ones
/// dropped, grouped up to the sentence and character limits, and a sentence over the
/// character limit is cut by words. When no sentence holds text, the whole text is the one
/// sentence; when even that is blank, the one chunk is the trimmed (empty) text.
pub open spec fn capped_chunks(
    split: Seq<Seq<char>>,
    text: Seq<char>,
    max_chars: nat,
    max_sentences: nat,
) -> Seq<Seq<char>> {
    let source = if has_sentence(split) {
        split
    } else {
        seq![text]
    };
    let st = group_scan(source, max_chars, max_sentences);
    let out = if st.grouped.len() > 0 {
        st.out.push(trim(st.grouped))
    } else {
        st.out
    };
    if out.len() == 0 {
        seq![trim(text)]
    } else {
        out
    }
}

fn flush_group_exec(out: &mut Vec<Vec<char>>, grouped: &mut Vec<char>, count: &mut usize)
    ensures
        ({
            let f = flush_group(GroupScan { out: char_seqs(old(out)@), grouped: old(grouped)@, count: 0 });
            char_seqs(final(out)@) == f.out && final(grouped)@ == f.grouped
        }),
        *final(count) == 0,
{
    let t = trim_chars(grouped);
    if t.len() > 0 {
        let ghost o0 = out@;
        out.push(t);
        assert(char_seqs(out@) =~= char_seqs(o0).push(t@));
    }
    *grouped = Vec::new();
    assert(grouped@ =~= Seq::<char>::empty());
    *count = 0;
}

fn start_chunk_exec(
    out: &mut Vec<Vec<char>>,
    grouped: &mut Vec<char>,
    count: &mut usize,
    t: Vec<char>,
    max_chars: usize,
    fcl: usize,
)
    requires
        max_chars >= 1,
        fcl == first_chunk_char_limit(max_chars as nat),
    ensures
        ({
            let s = start_chunk(
                GroupScan { out: char_seqs(old(out)@), grouped: old(grouped)@, count: *old(count) as nat },
                t@,
                max_chars as nat,
            );
            char_seqs(final(out)@) == s.out && final(grouped)@ == s.grouped && *final(count) as nat == s.count
        }),
{
    let cl = if out.len() == 0 {
        fcl
    } else {
        max_chars
    };
    if t.len() > cl {
        let pieces = split_chars_by_words(&t, cl);
        let ghost o0 = out@;
        out.append(&mut pieces.clone());
        assert(char_seqs(out@) =~= char_seqs(o0) + char_seqs(pieces@));
        *grouped = Vec::new();
        assert(grouped@ =~= Seq::<char>::empty());
        *count = 0;
    } else {
        *grouped = t;
        *count = 1;
    }
}

/// Groups the sentences `split` of `original_text` into chunks for synthesis, as
/// `capped_chunks` says.
pub fn cap_chunks_by_chars(
    split: Vec<String>,
    original_text: &str,
    max_chars: usize,
    max_sentences_per_chunk: usize,
) -> (r: Vec<String>)
    requires
        max_chars >= 1,
    ensures
        r@.map_values(|x: String| x@) == capped_chunks(
            split@.map_values(|x: String| x@),
            original_text@,
            max_chars as nat,
            max_sentences_per_chunk as nat,
        ),
{
    let ghost ms = max_chars as nat;
    let ghost mss = max_sentences_per_chunk as nat;
    let ghost given = split@.map_values(|x: String| x@);
    let mut usable = false;
    let mut q: usize = 0;
    while q < split.len() && !usable
        invariant
            q <= split@.len(),
            given == split@.map_values(|x: String| x@),
            usable ==> has_sentence(given),
            !usable ==> forall|j: int| 0 <= j < q ==> trim(#[trigger] given[j]).len() == 0,
        decreases split@.len() - q,
    {
        let t = trim_chars(&chars_of(split[q].as_str()));
        if t.len() > 0 {
            assert(trim(given[q as int]).len() > 0);
            usable = true;
        }
        q = q + 1;
    }
    let mut source: Vec<String> = split;
    if !usable {
        source = Vec::new();
        source.push(original_text.to_string());
    }
    let ghost src = source@.map_values(|x: String| x@);
    assert(src =~= (if has_sentence(given) {
        given
    } else {
        seq![original_text@]
    }));
    let sl: usize = if max_sentences_per_chunk < 1 {
        1
    } else {
        max_sentences_per_chunk
    };
    let fcl: usize = if max_chars < FIRST_CHUNK_MAX_CHARS {
        if max_chars < MIN_CHUNK_CHARS {
            MIN_CHUNK_CHARS
        } else {
            max_chars
        }
    } else {
        FIRST_CHUNK_MAX_CHARS
    };
    let mut out: Vec<Vec<char>> = Vec::new();
    let mut grouped: Vec<char> = Vec::new();
    let mut count: usize = 0;
    let mut k: usize = 0;
    assert(char_seqs(out@) =~= Seq::<Seq<char>>::empty());
    assert(grouped@ =~= Seq::<char>::empty());
    assert(src.take(0) =~= Seq::<Seq<char>>::empty());
    while k < source.len()
        invariant
            max_chars >= 1,
            k <= source@.len(),
            src == source@.map_values(|x: String| x@),
            sl == sentence_limit(mss),
            fcl == first_chunk_char_limit(ms),
            ms == max_chars,
            mss == max_sentences_per_chunk,
            count <= k,
            grouped@.len() == 0 ==> count == 0,
            group_scan(src.take(k as int), ms, mss) == (GroupScan {
                out: char_seqs(out@),
                grouped: grouped@,
                count: count as nat,
            }),
        decreases source@.len() - k,
    {
        assert(src.take(k + 1).drop_last() =~= src.take(k as int));
        let chars = chars_of(source[k].as_str());
        let t = trim_chars(&chars);
        let first = out.len() == 0;
        let asl: usize = if first {
            FIRST_CHUNK_MAX_SENTENCES
        } else {
            sl
        };
        let acl: usize = if first {
            fcl
        } else {
            max_chars
        };
        if t.len() == 0 {
        } else if grouped.len() == 0 {
            start_chunk_exec(&mut out, &mut grouped, &mut count, t, max_chars, fcl);
        } else if count < asl && grouped.len() < acl && t.len() < acl - grouped.len() {
            let ghost g0 = grouped@;
            grouped.push(' ');
            let mut j: usize = 0;
            while j < t.len()
                invariant
                    j <= t@.len(),
                    grouped@ == g0 + seq![' '] + t@.take(j as int),
                decreases t@.len() - j,
            {
                grouped.push(t[j]);
                assert(grouped@ =~= g0 + seq![' '] + t@.take(j + 1));
                j = j + 1;
            }
            assert(t@.take(t@.len() as int) =~= t@);
            count = count + 1;
        } else {
            flush_group_exec(&mut out, &mut grouped, &mut count);
            start_chunk_exec(&mut out, &mut grouped, &mut count, t, max_chars, fcl);
        }
        k = k + 1;
    }
    assert(src.take(source@.len() as int) =~= src);
    if grouped.len() > 0 {
        let t = trim_chars(&grouped);
        let ghost o0 = out@;
        out.push(t);
        assert(char_seqs(out@) =~= char_seqs(o0).push(t@));
    }
    if out.len() == 0 {
        let whole = chars_of(original_text);
        out.push(trim_chars(&whole));
        assert(char_seqs(out@) =~= seq![trim(original_text@)]);
    }
    strings_of(&out)
}

/// No character of `w` is white space.
pub open spec fn solid(w: Seq<char>) -> bool {
    forall|j: int| 0 <= j < w.len() ==> !is_white_space(#[trigger] w[j])
}

/// `c` is a usable chunk within `lim` characters: not empty, and neither starting nor
/// ending with white space.
pub open spec fn fit_chunk(c: Seq<char>, lim: nat) -> bool {
    &&& 0 < c.len() <= lim
    &&& !is_white_space(c[0])
    &&& !is_white_space(c[c.len() - 1])
}

/// Some character of `s` is not white space.
pub open spec fn has_solid(s: Seq<char>) -> bool {
    exists|j: int| 0 <= j < s.len() && !is_white_space(#[trigger] s[j])
}

proof fn lemma_first_solid(s: Seq<char>, i: int)
    requires
        0 <= i <= s.len(),
    ensures
        i <= first_solid_from(s, i) <= s.len(),
        first_solid_from(s, i) < s.len() ==> !is_white_space(s[first_solid_from(s, i)]),
        forall|j: int| i <= j < first_solid_from(s, i) ==> is_white_space(#[trigger] s[j]),
    decreases s.len() - i,
{
    if i < s.len() && is_white_space(s[i]) {
        lemma_first_solid(s, i + 1);
    }
}

proof fn lemma_solid_end(s: Seq<char>, j: int)
    requires
        0 <= j <= s.len(),
    ensures
        0 <= solid_end_before(s, j) <= j,
        solid_end_before(s, j) > 0 ==> !is_white_space(s[solid_end_before(s, j) - 1]),
        forall|k: int| solid_end_before(s, j) <= k < j ==> is_white_space(#[trigger] s[k]),
    decreases j,
{
    if j > 0 && is_white_space(s[j - 1]) {
        lemma_solid_end(s, j - 1);
    }
}

/// The trimmed text is empty or starts and ends with a character that is not white space;
/// it is not empty when the text has such a character.
pub proof fn lemma_trim_shape(s: Seq<char>)
    ensures
        trim(s).len() <= s.len(),
        trim(s).len() > 0 ==> !is_white_space(trim(s)[0]) && !is_white_space(
            trim(s)[trim(s).len() - 1],
        ),
        has_solid(s) ==> trim(s).len() > 0,
{
    lemma_first_solid(s, 0);
    lemma_solid_end(s, s.len() as int);
    if has_solid(s) {
        let j = choose|j: int| 0 <= j < s.len() && !is_white_space(#[trigger] s[j]);
        assert(first_solid_from(s, 0) <= j);
        assert(j < solid_end_before(s, s.len() as int));
    }
}

/// A chunk that fits is its own trimmed text.
pub proof fn lemma_fit_is_trimmed(c: Seq<char>, lim: nat)
    requires
        fit_chunk(c, lim),
    ensures
        trim(c) == c,
{
    assert(first_solid_from(c, 0) == 0);
    assert(solid_end_before(c, c.len() as int) == c.len());
    assert(c.subrange(0, c.len() as int) =~= c);
}

proof fn lemma_scan_words(s: Seq<char>)
    ensures
        forall|i: int|
            0 <= i < scan_words(s).0.len() ==> #[trigger] scan_words(s).0[i].len() > 0 && solid(
                scan_words(s).0[i],
            ),
        solid(scan_words(s).1),
        has_solid(s) ==> scan_words(s).0.len() > 0 || scan_words(s).1.len() > 0,
    decreases s.len(),
{
    if s.len() > 0 {
        let t = s.drop_last();
        lemma_scan_words(t);
        let p = scan_words(t);
        let c = s.last();
        if !is_white_space(c) {
            assert(solid(p.1.push(c))) by {
                assert forall|j: int| 0 <= j < p.1.push(c).len() implies !is_white_space(
                    #[trigger] p.1.push(c)[j],
                ) by {
                    if j < p.1.len() {
                        assert(p.1.push(c)[j] == p.1[j]);
                    }
                }
            }
        }
        if has_solid(s) {
            let j = choose|j: int| 0 <= j < s.len() && !is_white_space(#[trigger] s[j]);
            if j < s.len() - 1 {
                assert(t[j] == s[j]);
                assert(has_solid(t));
            }
        }
        assert(solid(Seq::<char>::empty()));
    } else {
        assert(solid(Seq::<char>::empty()));
    }
}

/// Every word is a non-empty run of characters that are not white space, and text with such
/// a character has a word.
pub proof fn lemma_words_solid(s: Seq<char>)
    ensures
        forall|i: int| 0 <= i < words(s).len() ==> #[trigger] words(s)[i].len() > 0 && solid(words(s)[i]),
        has_solid(s) ==> words(s).len() > 0,
{
    lemma_scan_words(s);
}

proof fn lemma_char_pieces(w: Seq<char>, max: nat)
    requires
        max >= 1,
        w.len() > 0,
        solid(w),
    ensures
        char_pieces(w, max).len() > 0,
        forall|i: int| 0 <= i < char_pieces(w, max).len() ==> fit_chunk(#[trigger] char_pieces(w, max)[i], max),
    decreases w.len(),
{
    if w.len() > max {
        let rest = w.skip(max as int);
        assert forall|j: int| 0 <= j < rest.len() implies !is_white_space(#[trigger] rest[j]) by {
            assert(rest[j] == w[j + max]);
        }
        lemma_char_pieces(rest, max);
        let h = w.take(max as int);
        assert(fit_chunk(h, max)) by {
            assert(h[0] == w[0]);
            assert(h[h.len() - 1] == w[max - 1]);
        }
        let ps = char_pieces(w, max);
        assert forall|i: int| 0 <= i < ps.len() implies fit_chunk(#[trigger] ps[i], max) by {
            if i > 0 {
                assert(ps[i] == char_pieces(rest, max)[i - 1]);
            }
        }
    } else {
        assert(fit_chunk(w, max)) by {
            assert(!is_white_space(w[0]));
            assert(!is_white_space(w[w.len() - 1]));
        }
    }
}

proof fn lemma_pack_scan(ws: Seq<Seq<char>>, max: nat)
    requires
        max >= 1,
        forall|i: int| 0 <= i < ws.len() ==> #[trigger] ws[i].len() > 0 && solid(ws[i]),
    ensures
        forall|i: int| 0 <= i < pack_scan(ws, max).0.len() ==> fit_chunk(#[trigger] pack_scan(ws, max).0[i], max),
        pack_scan(ws, max).1.len() == 0 || fit_chunk(pack_scan(ws, max).1, max),
        ws.len() > 0 ==> pack_scan(ws, max).0.len() > 0 || pack_scan(ws, max).1.len() > 0,
    decreases ws.len(),
{
    if ws.len() > 0 {
        let t = ws.drop_last();
        assert forall|i: int| 0 <= i < t.len() implies #[trigger] t[i].len() > 0 && solid(t[i]) by {
            assert(t[i] == ws[i]);
        }
        lemma_pack_scan(t, max);
        let p = pack_scan(t, max);
        let w = ws.last();
        assert(w.len() > 0 && solid(w));
        assert(!is_white_space(w[0]) && !is_white_space(w[w.len() - 1]));
        let q = pack_step(p.0, p.1, w, max);
        if w.len() > max {
            lemma_char_pieces(w, max);
            let c = close_line(p.0, p.1);
            let ps = char_pieces(w, max);
            assert forall|i: int| 0 <= i < q.0.len() implies fit_chunk(#[trigger] q.0[i], max) by {
                if i < c.len() {
                    assert(q.0[i] == c[i]);
                    if i < p.0.len() {
                        assert(c[i] == p.0[i]);
                    }
                } else {
                    assert(q.0[i] == ps[i - c.len()]);
                }
            }
        } else if p.1.len() > 0 && p.1.len() + 1 + w.len() > max {
            assert forall|i: int| 0 <= i < q.0.len() implies fit_chunk(#[trigger] q.0[i], max) by {
                if i < p.0.len() {
                    assert(q.0[i] == p.0[i]);
                }
            }
        } else if p.1.len() == 0 {
        } else {
            let j = p.1 + seq![' '] + w;
            assert(j[0] == p.1[0]);
            assert(j[j.len() - 1] == w[w.len() - 1]);
        }
    }
}

/// Cutting by words gives lines that fit within `max` characters, and at least one line when
/// the text has a character that is not white space.
pub proof fn lemma_split_by_words_fits(s: Seq<char>, max: nat)
    requires
        max >= 1,
    ensures
        forall|i: int| 0 <= i < split_by_words(s, max).len() ==> fit_chunk(#[trigger] split_by_words(s, max)[i], max),
        has_solid(s) ==> split_by_words(s, max).len() > 0,
{
    lemma_words_solid(s);
    lemma_pack_scan(words(s), max);
    let p = pack_scan(words(s), max);
    let r = split_by_words(s, max);
    assert forall|i: int| 0 <= i < r.len() implies fit_chunk(#[trigger] r[i], max) by {
        if i < p.0.len() {
            assert(r[i] == p.0[i]);
        }
    }
}

/// What holds of the grouping at every sentence: made chunks fit, the first within the
/// first chunk's limit, and the open group fits the limit it is built under.
pub open spec fn group_ok(st: GroupScan, max_chars: nat) -> bool {
    let fcl = first_chunk_char_limit(max_chars);
    &&& forall|i: int| 0 <= i < st.out.len() ==> fit_chunk(#[trigger] st.out[i], max_chars)
    &&& st.out.len() > 0 ==> st.out[0].len() <= fcl
    &&& st.grouped.len() == 0 || fit_chunk(
        st.grouped,
        if st.out.len() == 0 {
            fcl
        } else {
            max_chars
        },
    )
}

/// Some sentence of `ss` is not blank.
pub open spec fn has_sentence(ss: Seq<Seq<char>>) -> bool {
    exists|i: int| 0 <= i < ss.len() && trim(#[trigger] ss[i]).len() > 0
}

proof fn lemma_flush_ok(st: GroupScan, max_chars: nat)
    requires
        max_chars >= 100,
        group_ok(st, max_chars),
    ensures
        group_ok(flush_group(st), max_chars),
        flush_group(st).out.len() >= st.out.len(),
        st.grouped.len() > 0 ==> flush_group(st).out.len() > 0,
        st.out.len() > 0 ==> flush_group(st).out[0] == st.out[0],
{
    let f = flush_group(st);
    if st.grouped.len() > 0 {
        let lim = if st.out.len() == 0 {
            first_chunk_char_limit(max_chars)
        } else {
            max_chars
        };
        lemma_fit_is_trimmed(st.grouped, lim);
        assert forall|i: int| 0 <= i < f.out.len() implies fit_chunk(#[trigger] f.out[i], max_chars) by {
            if i < st.out.len() {
                assert(f.out[i] == st.out[i]);
            }
        }
    } else {
        assert(trim(st.grouped).len() == 0);
    }
}

proof fn lemma_start_chunk_ok(st: GroupScan, t: Seq<char>, max_chars: nat)
    requires
        max_chars >= 100,
        group_ok(GroupScan { out: st.out, grouped: Seq::empty(), count: 0 }, max_chars),
        t.len() > 0,
        t == trim(t),
        !is_white_space(t[0]),
        !is_white_space(t[t.len() - 1]),
    ensures
        group_ok(start_chunk(st, t, max_chars), max_chars),
        start_chunk(st, t, max_chars).out.len() > 0 || start_chunk(st, t, max_chars).grouped.len() > 0,
        st.out.len() > 0 ==> start_chunk(st, t, max_chars).out.len() > 0,
{
    let fcl = first_chunk_char_limit(max_chars);
    let cl = if st.out.len() == 0 {
        fcl
    } else {
        max_chars
    };
    let r = start_chunk(st, t, max_chars);
    if t.len() > cl {
        assert(has_solid(t)) by {
            assert(!is_white_space(t[0]));
        }
        lemma_split_by_words_fits(t, cl);
        let ps = split_by_words(t, cl);
        assert forall|i: int| 0 <= i < r.out.len() implies fit_chunk(#[trigger] r.out[i], max_chars) by {
            if i < st.out.len() {
                assert(r.out[i] == st.out[i]);
            } else {
                assert(r.out[i] == ps[i - st.out.len()]);
                assert(fit_chunk(ps[i - st.out.len()], cl));
            }
        }
        if st.out.len() == 0 {
            assert(r.out[0] == ps[0]);
            assert(fit_chunk(ps[0], cl));
        } else {
            assert(r.out[0] == st.out[0]);
        }
    } else {
        assert(fit_chunk(t, cl));
    }
}

proof fn lemma_group_step_ok(st: GroupScan, sentence: Seq<char>, max_chars: nat, max_sentences: nat)
    requires
        max_chars >= 100,
        group_ok(st, max_chars),
    ensures
        group_ok(group_step(st, sentence, max_chars, max_sentences), max_chars),
        st.out.len() > 0 || st.grouped.len() > 0 || trim(sentence).len() > 0 ==> group_step(
            st,
            sentence,
            max_chars,
            max_sentences,
        ).out.len() > 0 || group_step(st, sentence, max_chars, max_sentences).grouped.len() > 0,
{
    let fcl = first_chunk_char_limit(max_chars);
    let t = trim(sentence);
    lemma_trim_shape(sentence);
    let first = st.out.len() == 0;
    let sl = if first {
        1
    } else {
        sentence_limit(max_sentences)
    };
    let cl = if first {
        fcl
    } else {
        max_chars
    };
    if t.len() == 0 {
        return;
    }
    lemma_fit_is_trimmed(t, t.len());
    assert forall|i: int| 0 <= i < st.out.len() implies fit_chunk(#[trigger] st.out[i], max_chars) by {
    }
    if st.grouped.len() == 0 {
        lemma_start_chunk_ok(st, t, max_chars);
    } else if st.count < sl && st.grouped.len() + 1 + t.len() <= cl {
        let j = st.grouped + seq![' '] + t;
        assert(j[0] == st.grouped[0]);
        assert(j[j.len() - 1] == t[t.len() - 1]);
        assert(fit_chunk(j, cl));
    } else {
        lemma_flush_ok(st, max_chars);
        let f = flush_group(st);
        lemma_start_chunk_ok(f, t, max_chars);
    }
}

proof fn lemma_group_scan_ok(ss: Seq<Seq<char>>, max_chars: nat, max_sentences: nat)
    requires
        max_chars >= 100,
    ensures
        group_ok(group_scan(ss, max_chars, max_sentences), max_chars),
        has_sentence(ss) ==> group_scan(ss, max_chars, max_sentences).out.len() > 0 || group_scan(
            ss,
            max_chars,
            max_sentences,
        ).grouped.len() > 0,
    decreases ss.len(),
{
    if ss.len() > 0 {
        let t = ss.drop_last();
        lemma_group_scan_ok(t, max_chars, max_sentences);
        lemma_group_step_ok(group_scan(t, max_chars, max_sentences), ss.last(), max_chars, max_sentences);
        if has_sentence(ss) {
            let i = choose|i: int| 0 <= i < ss.len() && trim(#[trigger] ss[i]).len() > 0;
            if i < ss.len() - 1 {
                assert(t[i] == ss[i]);
                assert(has_sentence(t));
            }
        }
    }
}

/// With a limit of at least 100 characters, when some sentence holds text, or else the text
/// itself is not blank, the chunks are not none, and each is non-empty, trimmed and within
/// the limit, the first within the first chunk's limit.
pub proof fn lemma_chunks_fit(split: Seq<Seq<char>>, text: Seq<char>, max_chars: nat, max_sentences: nat)
    requires
        max_chars >= 100,
        has_sentence(split) || trim(text).len() > 0,
    ensures
        capped_chunks(split, text, max_chars, max_sentences).len() > 0,
        capped_chunks(split, text, max_chars, max_sentences)[0].len() <= first_chunk_char_limit(
            max_chars,
        ),
        forall|i: int|
            0 <= i < capped_chunks(split, text, max_chars, max_sentences).len() ==> {
                let c = #[trigger] capped_chunks(split, text, max_chars, max_sentences)[i];
                &&& c.len() > 0
                &&& trim(c) == c
                &&& c.len() <= max_chars
            },
{
    let source = if has_sentence(split) {
        split
    } else {
        seq![text]
    };
    if !has_sentence(split) {
        assert(trim(source[0]).len() > 0);
        assert(has_sentence(source));
    }
    lemma_group_scan_ok(source, max_chars, max_sentences);
    let st = group_scan(source, max_chars, max_sentences);
    let out = if st.grouped.len() > 0 {
        st.out.push(trim(st.grouped))
    } else {
        st.out
    };
    let r = capped_chunks(split, text, max_chars, max_sentences);
    if st.grouped.len() > 0 {
        let lim = if st.out.len() == 0 {
            first_chunk_char_limit(max_chars)
        } else {
            max_chars
        };
        lemma_fit_is_trimmed(st.grouped, lim);
    }
    assert forall|i: int| 0 <= i < out.len() implies fit_chunk(#[trigger] out[i], max_chars) by {
        if i < st.out.len() {
            assert(out[i] == st.out[i]);
        }
    }
    assert(out.len() > 0);
    assert(r == out);
    if st.out.len() == 0 {
        assert(out[0] == st.grouped);
    }
    assert forall|i: int| 0 <= i < r.len() implies {
        let c = #[trigger] r[i];
        &&& c.len() > 0
        &&& trim(c) == c
        &&& c.len() <= max_chars
    } by {
        assert(fit_chunk(r[i], max_chars));
        lemma_fit_is_trimmed(r[i], max_chars);
    }
}

/// The chunks depend on the sentences, the text and the limits alone: the same inputs give
/// the same chunks.
pub proof fn lemma_chunks_deterministic(
    split1: Seq<Seq<char>>,
    split2: Seq<Seq<char>>,
    text1: Seq<char>,
    text2: Seq<char>,
    max_chars: nat,
    max_sentences: nat,
)
    requires
        split1 == split2,
        text1 == text2,
    ensures
        capped_chunks(split1, text1, max_chars, max_sentences) == capped_chunks(
            split2,
            text2,
            max_chars,
            max_sentences,
        ),
{
}

} // verus!

use vstd::prelude::*;
use vstd::string::StringExecFns;
use crate::{EngineError, ErrorKind, SavedVoiceMeta};
use crate::text::{chars_of, string_of};

verus! {

/// The id of the built-in default voice.
pub open spec fn default_voice_id() -> Seq<char> {
    seq!['0']
}

/// The key under which a voice state is cached: the preset's for the default voice, the
/// saved voice's otherwise.
pub open spec fn voice_state_key_spec(voice_id: Seq<char>, preset: Seq<char>) -> Seq<char> {
    if voice_id == default_voice_id() {
        seq!['p', 'r', 'e', 's', 'e', 't', ':'] + preset
    } else {
        seq!['v', 'o', 'i', 'c', 'e', ':'] + voice_id
    }
}

/// `voice_id` names the built-in default voice.
pub fn is_default_voice(voice_id: &str) -> (r: bool)
    ensures
        r == (voice_id@ == default_voice_id()),
{
    let v = chars_of(voice_id);
    let r = v.len() == 1 && v[0] == '0';
    assert(r ==> v@ =~= default_voice_id());
    r
}

fn append_chars(out: &mut Vec<char>, s: &Vec<char>)
    ensures
        final(out)@ == old(out)@ + s@,
{
    let mut i: usize = 0;
    while i < s.len()
        invariant
            i <= s@.len(),
            out@ == old(out)@ + s@.take(i as int),
        decreases s@.len() - i,
    {
        out.push(s[i]);
        assert(out@ =~= old(out)@ + s@.take(i + 1));
        i = i + 1;
    }
    assert(s@.take(s@.len() as int) =~= s@);
}

/// The key under which the voice state of `voice_id` (with `selected_preset` for the
/// default voice) is cached.
pub fn voice_state_key(voice_id: &str, selected_preset: &str) -> (r: String)
    ensures
        r@ == voice_state_key_spec(voice_id@, selected_preset@),
{
    let mut out: Vec<char> = Vec::new();
    if is_default_voice(voice_id) {
        out.push('p');
        out.push('r');
        out.push('e');
        out.push('s');
        out.push('e');
        out.push('t');
        out.push(':');
        append_chars(&mut out, &chars_of(selected_preset));
    } else {
        out.push('v');
        out.push('o');
        out.push('i');
        out.push('c');
        out.push('e');
        out.push(':');
        append_chars(&mut out, &chars_of(voice_id));
    }
    assert(out@ =~= voice_state_key_spec(voice_id@, selected_preset@));
    string_of(&out)
}

/// A voice may be deleted unless it is the built-in default voice.
pub fn check_voice_deletable(voice_id: &str) -> (r: Result<(), EngineError>)
    ensures
        r is Err <==> voice_id@ == default_voice_id(),
        r matches Err(e) ==> e.kind == ErrorKind::DefaultVoiceImmutable,
{
    if is_default_voice(voice_id) {
        Err(
            EngineError {
                kind: ErrorKind::DefaultVoiceImmutable,
                message: String::from_str("Built-in default voice cannot be deleted"),
            },
        )
    } else {
        Ok(())
    }
}

/// The stored record of a voice just cloned from reference audio; the language hint is
/// "en" when none is given, and there is no description yet.
pub fn cloned_voice_meta(
    voice_id: String,
    display_name: String,
    created_at: String,
    tts_model_id: String,
    language: Option<String>,
    ref_text: Option<String>,
) -> (r: SavedVoiceMeta)
    ensures
        r.voice_id@ == voice_id@,
        r.display_name@ == display_name@,
        r.created_at@ == created_at@,
        r.tts_model_id@ == tts_model_id@,
        r.language_hint@ == match language {
            Some(l) => l@,
            None => seq!['e', 'n'],
        },
        r.description is None,
        r.ref_text == ref_text,
{
    let language_hint = match language {
        Some(l) => l,
        None => {
            let s = String::from_str("en");
            proof {
                reveal_strlit("en");
            }
            assert(s@ =~= seq!['e', 'n']);
            s
        },
    };
    SavedVoiceMeta {
        voice_id,
        display_name,
        created_at,
        tts_model_id,
        language_hint,
        description: None,
        ref_text,
    }
}

/// The record after an update: a new display name, the language hint only when one is
/// given, and the description as given.
pub fn updated_voice_meta(
    meta: SavedVoiceMeta,
    display_name: String,
    language: Option<String>,
    description: Option<String>,
) -> (r: SavedVoiceMeta)
    ensures
        r.voice_id == meta.voice_id,
        r.display_name@ == display_name@,
        r.created_at == meta.created_at,
        r.tts_model_id == meta.tts_model_id,
        r.language_hint@ == match language {
            Some(l) => l@,
            None => meta.language_hint@,
        },
        r.description == description,
        r.ref_text == meta.ref_text,
{
    let mut m = meta;
    m.display_name = display_name;
    match language {
        Some(l) => {
            m.language_hint = l;
        },
        None => {},
    }
    m.description = description;
    m
}

/// `a` comes before `b` or equals it in the order of `String`: code point by code point,
/// a prefix first.
pub open spec fn text_le(a: Seq<char>, b: Seq<char>) -> bool
    decreases a.len(),
{
    if a.len() == 0 {
        true
    } else if b.len() == 0 {
        false
    } else if (a[0] as u32) < (b[0] as u32) {
        true
    } else if (a[0] as u32) > (b[0] as u32) {
        false
    } else {
        text_le(a.skip(1), b.skip(1))
    }
}

/// Of two texts, one comes first.
pub proof fn lemma_text_le_total(a: Seq<char>, b: Seq<char>)
    ensures
        text_le(a, b) || text_le(b, a),
    decreases a.len(),
{
    if a.len() > 0 && b.len() > 0 && (a[0] as u32) == (b[0] as u32) {
        lemma_text_le_total(a.skip(1), b.skip(1));
    }
}

fn created_le(a: &SavedVoiceMeta, b: &SavedVoiceMeta) -> (r: bool)
    ensures
        r == text_le(a.created_at@, b.created_at@),
{
    let x = chars_of(a.created_at.as_str());
    let y = chars_of(b.created_at.as_str());
    let mut i: usize = 0;
    assert(x@.skip(0) =~= x@);
    assert(y@.skip(0) =~= y@);
    while i < x.len() && i < y.len() && (x[i] as u32) == (y[i] as u32)
        invariant
            i <= x@.len(),
            i <= y@.len(),
            text_le(x@, y@) == text_le(x@.skip(i as int), y@.skip(i as int)),
        decreases x@.len() - i,
    {
        proof {
            assert(x@.skip(i as int).skip(1) =~= x@.skip(i + 1));
            assert(y@.skip(i as int).skip(1) =~= y@.skip(i + 1));
        }
        i = i + 1;
    }
    if i == x.len() {
        true
    } else if i == y.len() {
        false
    } else {
        (x[i] as u32) < (y[i] as u32)
    }
}

/// Each record's creation time comes no later than the next one's.
pub open spec fn sorted_by_creation(v: Seq<SavedVoiceMeta>) -> bool {
    forall|i: int| 0 <= i < v.len() - 1 ==> text_le(#[trigger] v[i].created_at@, v[i + 1].created_at@)
}

/// `r` holds the records of `v` at the positions `p` says, each once, and records created
/// at the same time keep their order.
pub open spec fn stable_rearrangement(r: Seq<SavedVoiceMeta>, v: Seq<SavedVoiceMeta>, p: Seq<int>) -> bool {
    &&& p.len() == r.len() == v.len()
    &&& forall|k: int| 0 <= k < p.len() ==> 0 <= #[trigger] p[k] < v.len() && r[k] == v[p[k]]
    &&& forall|k: int, m: int| 0 <= k < m < p.len() ==> #[trigger] p[k] != #[trigger] p[m]
    &&& forall|k: int, m: int|
        0 <= k < m < p.len() && (#[trigger] r[k]).created_at@ == (#[trigger] r[m]).created_at@
            ==> p[k] < p[m]
}

proof fn lemma_text_le_refl(a: Seq<char>)
    ensures
        text_le(a, a),
    decreases a.len(),
{
    if a.len() > 0 {
        lemma_text_le_refl(a.skip(1));
    }
}

#[verifier::spinoff_prover]
#[verifier::rlimit(40)]
proof fn lemma_insert_in_order(
    o0: Seq<SavedVoiceMeta>,
    p0: Seq<int>,
    x: SavedVoiceMeta,
    j: int,
    next: int,
    all: Seq<SavedVoiceMeta>,
)
    requires
        0 <= j <= o0.len(),
        0 <= next < all.len(),
        x == all[next],
        sorted_by_creation(o0),
        p0.len() == o0.len(),
        forall|k: int| 0 <= k < p0.len() ==> 0 <= #[trigger] p0[k] < next && o0[k] == all[p0[k]],
        forall|k: int, m: int| 0 <= k < m < p0.len() ==> #[trigger] p0[k] != #[trigger] p0[m],
        forall|k: int, m: int|
            0 <= k < m < p0.len() && (#[trigger] o0[k]).created_at@ == (#[trigger] o0[m]).created_at@
                ==> p0[k] < p0[m],
        j > 0 ==> text_le(o0[j - 1].created_at@, x.created_at@),
        j < o0.len() ==> text_le(x.created_at@, o0[j].created_at@),
        forall|k: int| j <= k < o0.len() ==> !text_le(#[trigger] o0[k].created_at@, x.created_at@),
    ensures
        ({
            let out = o0.insert(j, x);
            let perm = p0.insert(j, next);
            &&& sorted_by_creation(out)
            &&& forall|k: int| 0 <= k < perm.len() ==> 0 <= #[trigger] perm[k] < next + 1 && out[k] == all[perm[k]]
            &&& forall|k: int, m: int| 0 <= k < m < perm.len() ==> #[trigger] perm[k] != #[trigger] perm[m]
            &&& forall|k: int, m: int|
                0 <= k < m < perm.len() && (#[trigger] out[k]).created_at@ == (#[trigger] out[m]).created_at@
                    ==> perm[k] < perm[m]
        }),
{
    let out = o0.insert(j, x);
    let perm = p0.insert(j, next);
    lemma_text_le_refl(x.created_at@);
    assert forall|i: int| 0 <= i < out.len() - 1 implies text_le(
        #[trigger] out[i].created_at@,
        out[i + 1].created_at@,
    ) by {
        if i < j - 1 {
            assert(out[i] == o0[i] && out[i + 1] == o0[i + 1]);
        } else if i == j - 1 {
            assert(out[i] == o0[i] && out[i + 1] == x);
        } else if i == j {
            assert(out[i] == x && out[i + 1] == o0[i]);
        } else {
            assert(out[i] == o0[i - 1] && out[i + 1] == o0[i]);
        }
    }
    assert forall|k: int| 0 <= k < perm.len() implies 0 <= #[trigger] perm[k] < next + 1 && out[k]
        == all[perm[k]] by {
        if k < j {
            assert(perm[k] == p0[k] && out[k] == o0[k]);
        } else if k > j {
            assert(perm[k] == p0[k - 1] && out[k] == o0[k - 1]);
        } else {
            assert(perm[k] == next && out[k] == x);
        }
    }
    assert forall|k: int, m: int| 0 <= k < m < perm.len() implies #[trigger] perm[k]
        != #[trigger] perm[m] by {
        if k != j && m != j {
            let k0 = if k < j { k } else { k - 1 };
            let m0 = if m < j { m } else { m - 1 };
            assert(perm[k] == p0[k0] && perm[m] == p0[m0]);
        } else if k == j {
            assert(perm[m] == p0[m - 1]);
        } else {
            assert(perm[k] == p0[k]);
        }
    }
    assert forall|k: int, m: int|
        0 <= k < m < perm.len() && (#[trigger] out[k]).created_at@ == (
        #[trigger] out[m]).created_at@ implies perm[k] < perm[m] by {
        if k != j && m != j {
            let k0 = if k < j { k } else { k - 1 };
            let m0 = if m < j { m } else { m - 1 };
            assert(perm[k] == p0[k0] && perm[m] == p0[m0]);
            assert(out[k] == o0[k0] && out[m] == o0[m0]);
        } else if k == j {
            assert(out[m] == o0[m - 1]);
            assert(!text_le(o0[m - 1].created_at@, x.created_at@));
        } else {
            assert(perm[k] == p0[k]);
        }
    }
}

/// The saved voices in order of creation, oldest first; voices created at the same time keep
/// their order.
pub fn sort_voices_by_creation(voices: Vec<SavedVoiceMeta>) -> (r: Vec<SavedVoiceMeta>)
    ensures
        r@.to_multiset() == voices@.to_multiset(),
        sorted_by_creation(r@),
        exists|p: Seq<int>| stable_rearrangement(r@, voices@, p),
{
    broadcast use vstd::seq_lib::group_to_multiset_ensures;

    let total = voices.len();
    let ghost all = voices@;
    let ghost mut perm: Seq<int> = Seq::empty();
    let mut out: Vec<SavedVoiceMeta> = Vec::new();
    let mut rest = voices;
    let mut next: usize = 0;
    assert(all.skip(0) =~= all);
    while rest.len() > 0
        invariant
            out@.to_multiset().add(rest@.to_multiset()) == all.to_multiset(),
            sorted_by_creation(out@),
            next + rest@.len() == all.len(),
            all.len() == total,
            rest@ == all.skip(next as int),
            perm.len() == out@.len() == next,
            forall|k: int| 0 <= k < perm.len() ==> 0 <= #[trigger] perm[k] < next && out@[k] == all[perm[k]],
            forall|k: int, m: int| 0 <= k < m < perm.len() ==> #[trigger] perm[k] != #[trigger] perm[m],
            forall|k: int, m: int|
                0 <= k < m < perm.len() && (#[trigger] out@[k]).created_at@ == (#[trigger] out@[m]).created_at@
                    ==> perm[k] < perm[m],
        decreases rest@.len(),
    {
        let ghost r0 = rest@;
        let x = rest.remove(0);
        let mut j: usize = out.len();
        while j > 0 && !created_le(&out[j - 1], &x)
            invariant
                j <= out@.len(),
                forall|k: int| j <= k < out@.len() ==> !text_le(#[trigger] out@[k].created_at@, x.created_at@),
            decreases j,
        {
            j = j - 1;
        }
        let ghost o0 = out@;
        let ghost p0 = perm;
        proof {
            if j < o0.len() {
                lemma_text_le_total(o0[j as int].created_at@, x.created_at@);
            }
        }
        out.insert(j, x);
        proof {
            perm = p0.insert(j as int, next as int);
            assert(out@ == o0.insert(j as int, x));
            assert(x == all[next as int]);
            lemma_insert_in_order(o0, p0, x, j as int, next as int, all);
            assert(rest@ == r0.remove(0));
            assert(rest@ =~= all.skip(next + 1));
            assert(x == r0[0]);
            assert(r0.contains(x));
            vstd::seq_lib::to_multiset_contains(r0, x);
            vstd::seq_lib::to_multiset_insert(o0, j as int, x);
            vstd::seq_lib::to_multiset_remove(r0, 0);
            assert(out@.to_multiset() == o0.to_multiset().insert(x));
            assert(rest@.to_multiset() == r0.to_multiset().remove(x));
            assert(out@.to_multiset().add(rest@.to_multiset()) =~= o0.to_multiset().add(
                r0.to_multiset(),
            ));
        }
        next = next + 1;
    }
    proof {
        assert(rest@.to_multiset() =~= vstd::multiset::Multiset::empty());
        assert(out@.to_multiset() =~= all.to_multiset());
        assert(stable_rearrangement(out@, all, perm));
    }
    out
}

} // verus!

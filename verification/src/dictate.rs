//! Dictation: the phone's microphone stream on its way to the recogniser, and the
//! recogniser's transcript on its way to the focused window.
//!
//! The phone streams interleaved stereo samples at 48 kHz; the recogniser wants mono at
//! 16 kHz. One sample of the result is made of a group of three frames, that is of six
//! samples of the stream. Samples are handled here by their bits.
use crate::bytes;
use crate::files::pshell;
use crate::keyboard;
use crate::keyboard::KeyEvent;
use crate::text;
use crate::voice;
use crate::voice::settings::VoiceSettings;
use crate::voice::{Plan, Processed};
use vstd::prelude::*;
use vstd::slice::slice_subrange;

verus! {

/// The sample rate that the recogniser wants.
pub const TARGET_RATE: u32 = 16_000;

// ---------------------------------------------------------------- WAV

/// The header of a 16-bit mono WAV at 16 kHz with `n` samples.
pub open spec fn wav_header(n: nat) -> Seq<u8> {
    seq![82u8, 73u8, 70u8, 70u8] + bytes::le32(((36 + 2 * n) % 0x1_0000_0000) as u32)
        + seq![87u8, 65u8, 86u8, 69u8] + seq![102u8, 109u8, 116u8, 32u8] + bytes::le32(16)
        + bytes::le16(1) + bytes::le16(1) + bytes::le32(TARGET_RATE) + bytes::le32(
        (TARGET_RATE * 2) as u32,
    ) + bytes::le16(2) + bytes::le16(16) + seq![100u8, 97u8, 116u8, 97u8] + bytes::le32(
        ((2 * n) % 0x1_0000_0000) as u32,
    )
}

/// The bytes of the samples, two each, the low one first.
pub open spec fn wav_data(samples: Seq<i16>) -> Seq<u8>
    decreases samples.len(),
{
    if samples.len() == 0 {
        Seq::empty()
    } else {
        wav_data(samples.drop_last()) + bytes::le16(bytes::bits16(samples.last()))
    }
}

/// The bits of a signed number.
fn bits_of(v: i16) -> (r: u16)
    ensures
        r == bytes::bits16(v),
{
    if v < 0 {
        (v as i32 + 65536) as u16
    } else {
        v as u16
    }
}

/// Encodes mono samples as a 16-bit PCM WAV at 16 kHz.
pub fn encode_wav_16k_mono(samples: &[i16]) -> (r: Vec<u8>)
    requires
        44 + 2 * samples@.len() <= usize::MAX,
    ensures
        r@ == wav_header(samples@.len()) + wav_data(samples@),
{
    let data_len: u128 = samples.len() as u128 * 2;
    let mut w: Vec<u8> = Vec::new();
    w.push(82);
    w.push(73);
    w.push(70);
    w.push(70);
    bytes::push32(&mut w, ((36 + data_len) % 0x1_0000_0000) as u32);
    w.push(87);
    w.push(65);
    w.push(86);
    w.push(69);
    w.push(102);
    w.push(109);
    w.push(116);
    w.push(32);
    bytes::push32(&mut w, 16);
    bytes::push16(&mut w, 1);
    bytes::push16(&mut w, 1);
    bytes::push32(&mut w, TARGET_RATE);
    bytes::push32(&mut w, TARGET_RATE * 2);
    bytes::push16(&mut w, 2);
    bytes::push16(&mut w, 16);
    w.push(100);
    w.push(97);
    w.push(116);
    w.push(97);
    bytes::push32(&mut w, (data_len % 0x1_0000_0000) as u32);
    let ghost header = w@;
    assert(header =~= wav_header(samples@.len()));
    let mut i: usize = 0;
    assert(header + wav_data(samples@.take(0)) =~= header);
    while i < samples.len()
        invariant
            i <= samples@.len(),
            w@ == header + wav_data(samples@.take(i as int)),
        decreases samples@.len() - i,
    {
        bytes::push16(&mut w, bits_of(samples[i]));
        assert(samples@.take(i + 1).drop_last() =~= samples@.take(i as int));
        i = i + 1;
        assert(w@ =~= header + wav_data(samples@.take(i as int)));
    }
    assert(samples@.take(i as int) =~= samples@);
    w
}

/// The header is 44 bytes long, whatever the number of samples.
pub proof fn header_is_44_bytes(n: nat)
    ensures
        wav_header(n).len() == 44,
{
}

/// Sample `i` stands behind the header at `44 + 2 * i`, the low byte first.
pub proof fn each_sample_has_its_place(samples: Seq<i16>, i: int)
    requires
        0 <= i < samples.len(),
    ensures
        wav_data(samples).len() == 2 * samples.len(),
        (wav_header(samples.len()) + wav_data(samples)).subrange(44 + 2 * i, 46 + 2 * i)
            == bytes::le16(bytes::bits16(samples[i])),
{
    lemma_wav_data(samples);
    header_is_44_bytes(samples.len());
    assert((wav_header(samples.len()) + wav_data(samples)).subrange(44 + 2 * i, 46 + 2 * i)
        =~= wav_data(samples).subrange(2 * i, 2 * i + 2));
}

/// The number in two bytes, the low one first.
pub open spec fn two_bytes(b: Seq<u8>, at: int) -> int {
    b[at] + 256 * b[at + 1]
}

/// The number in four bytes, the lowest first.
pub open spec fn four_bytes(b: Seq<u8>, at: int) -> int {
    b[at] + 256 * b[at + 1] + 65536 * b[at + 2] + 16777216 * b[at + 3]
}

/// The header says what follows it: the letters `RIFF`, `WAVE`, `fmt ` and `data` in their places,
/// 16 bytes of format, plain samples, one channel, 16000 samples and so 32000 bytes a second, two
/// bytes and 16 bits a sample, and the lengths of the file behind its first eight bytes and of the
/// samples, as far as four bytes can say them.
#[verifier::spinoff_prover]
#[verifier::rlimit(60)]
pub proof fn the_header_describes_the_samples(n: nat)
    ensures
        wav_header(n).subrange(0, 4) == seq!['R' as u8, 'I' as u8, 'F' as u8, 'F' as u8],
        wav_header(n).subrange(8, 12) == seq!['W' as u8, 'A' as u8, 'V' as u8, 'E' as u8],
        wav_header(n).subrange(12, 16) == seq!['f' as u8, 'm' as u8, 't' as u8, ' ' as u8],
        wav_header(n).subrange(36, 40) == seq!['d' as u8, 'a' as u8, 't' as u8, 'a' as u8],
        four_bytes(wav_header(n), 16) == 16,
        two_bytes(wav_header(n), 20) == 1,
        two_bytes(wav_header(n), 22) == 1,
        four_bytes(wav_header(n), 24) == 16000,
        four_bytes(wav_header(n), 28) == 32000,
        two_bytes(wav_header(n), 32) == 2,
        two_bytes(wav_header(n), 34) == 16,
        36 + 2 * n < 0x1_0000_0000 ==> four_bytes(wav_header(n), 4) == 36 + 2 * n && four_bytes(
            wav_header(n),
            40,
        ) == 2 * n,
{
    let h = wav_header(n);
    let a = ((36 + 2 * n) % 0x1_0000_0000) as u32;
    let b = ((2 * n) % 0x1_0000_0000) as u32;
    lemma_four(h, 4, a);
    lemma_four(h, 16, 16);
    lemma_four(h, 24, 16000);
    lemma_four(h, 28, 32000);
    lemma_four(h, 40, b);
    lemma_two(h, 20, 1);
    lemma_two(h, 22, 1);
    lemma_two(h, 32, 2);
    lemma_two(h, 34, 16);
    assert(h.subrange(4, 8) =~= bytes::le32(a));
    assert(h.subrange(16, 20) =~= bytes::le32(16));
    assert(h.subrange(20, 22) =~= bytes::le16(1));
    assert(h.subrange(22, 24) =~= bytes::le16(1));
    assert(h.subrange(24, 28) =~= bytes::le32(16000));
    assert(h.subrange(28, 32) =~= bytes::le32(32000));
    assert(h.subrange(32, 34) =~= bytes::le16(2));
    assert(h.subrange(34, 36) =~= bytes::le16(16));
    assert(h.subrange(40, 44) =~= bytes::le32(b));
    assert(h.subrange(0, 4) =~= seq!['R' as u8, 'I' as u8, 'F' as u8, 'F' as u8]);
    assert(h.subrange(8, 12) =~= seq!['W' as u8, 'A' as u8, 'V' as u8, 'E' as u8]);
    assert(h.subrange(12, 16) =~= seq!['f' as u8, 'm' as u8, 't' as u8, ' ' as u8]);
    assert(h.subrange(36, 40) =~= seq!['d' as u8, 'a' as u8, 't' as u8, 'a' as u8]);
}

proof fn lemma_four(h: Seq<u8>, at: int, v: u32)
    requires
        0 <= at,
        at + 4 <= h.len(),
    ensures
        h.subrange(at, at + 4) == bytes::le32(v) ==> four_bytes(h, at) == v,
{
    let part = h.subrange(at, at + 4);
    bytes::bytes_add_up(0, v);
    assert(part[0] == h[at] && part[1] == h[at + 1] && part[2] == h[at + 2] && part[3] == h[at + 3]);
}

proof fn lemma_two(h: Seq<u8>, at: int, v: u16)
    requires
        0 <= at,
        at + 2 <= h.len(),
    ensures
        h.subrange(at, at + 2) == bytes::le16(v) ==> two_bytes(h, at) == v,
{
    let part = h.subrange(at, at + 2);
    bytes::bytes_add_up(v, 0);
    assert(part[0] == h[at] && part[1] == h[at + 1]);
}

/// The two bytes at `44 + 2 * i` of the file are sample `i`: together they are its number, or for
/// a negative sample what it lacks of zero counted down from 65536. Nothing follows the last.
pub proof fn each_sample_is_written(samples: Seq<i16>, i: int)
    requires
        0 <= i < samples.len(),
    ensures
        (wav_header(samples.len()) + wav_data(samples)).len() == 44 + 2 * samples.len(),
        two_bytes(wav_header(samples.len()) + wav_data(samples), 44 + 2 * i) == if samples[i] < 0 {
            65536 + samples[i]
        } else {
            samples[i] as int
        },
{
    let w = wav_header(samples.len()) + wav_data(samples);
    each_sample_has_its_place(samples, i);
    bytes::bytes_add_up(bytes::bits16(samples[i]), 0);
    let two = w.subrange(44 + 2 * i, 46 + 2 * i);
    assert(two[0] == w[44 + 2 * i] && two[1] == w[44 + 2 * i + 1]);
}

proof fn lemma_wav_data(samples: Seq<i16>)
    ensures
        wav_data(samples).len() == 2 * samples.len(),
        forall|i: int|
            0 <= i < samples.len() ==> wav_data(samples).subrange(2 * i, 2 * i + 2) == bytes::le16(
                bytes::bits16(#[trigger] samples[i]),
            ),
    decreases samples.len(),
{
    if samples.len() > 0 {
        let t = samples.drop_last();
        lemma_wav_data(t);
        assert forall|i: int| 0 <= i < samples.len() implies wav_data(samples).subrange(
            2 * i,
            2 * i + 2,
        ) == bytes::le16(bytes::bits16(#[trigger] samples[i])) by {
            if i < t.len() {
                assert(t[i] == samples[i]);
                assert(wav_data(samples).subrange(2 * i, 2 * i + 2) =~= wav_data(t).subrange(
                    2 * i,
                    2 * i + 2,
                ));
            } else {
                assert(wav_data(samples).subrange(2 * i, 2 * i + 2) =~= bytes::le16(
                    bytes::bits16(samples[i]),
                ));
            }
        }
    }
}

// ---------------------------------------------------------------- transcripts

/// The length of what precedes the first `c` at or behind `i`, counted from the start;
/// the whole length if there is none.
pub open spec fn stop(s: Seq<char>, c: char, i: int) -> int
    decreases s.len() - i,
{
    if i < 0 || i >= s.len() {
        s.len() as int
    } else if s[i] == c {
        i
    } else {
        stop(s, c, i + 1)
    }
}

proof fn lemma_stop(s: Seq<char>, c: char, i: int)
    requires
        0 <= i <= s.len(),
    ensures
        i <= stop(s, c, i) <= s.len(),
        stop(s, c, i) < s.len() ==> s[stop(s, c, i)] == c,
        forall|k: int| i <= k < stop(s, c, i) ==> s[k] != c,
    decreases s.len() - i,
{
    if i < s.len() && s[i] != c {
        lemma_stop(s, c, i + 1);
    }
}

/// What the recogniser writes in parentheses for something that is not speech: one word,
/// whatever the case of its letters and the white space around it.
pub open spec fn is_marker(inner: Seq<char>) -> bool {
    marker_words(text::words(inner))
}

/// The words of a marker.
pub open spec fn marker_words(words: Seq<Seq<char>>) -> bool {
    words.len() == 1 && {
        let word = text::lowercase(words[0]);
        word == "silence"@ || word == "blank_audio"@ || word == "inaudible"@
    }
}

/// `s` from `i` on, with a space in place of each bracketed span and of each
/// parenthesised marker. A bracketed span that is never closed reaches to the end; a
/// parenthesis that is never closed is kept with all that follows.
pub open spec fn without_markers(s: Seq<char>, i: int) -> Seq<char>
    decreases s.len() + 1 - i,
{
    if i < 0 || i >= s.len() {
        Seq::empty()
    } else if s[i] == '[' {
        let end = stop(s, ']', i + 1);
        if i < end <= s.len() {
            seq![' '] + without_markers(s, end + 1)
        } else {
            Seq::empty()
        }
    } else if s[i] == '(' {
        let end = stop(s, ')', i + 1);
        if i < end <= s.len() {
            let inner = s.subrange(i + 1, end);
            if is_marker(inner) && end < s.len() {
                seq![' '] + without_markers(s, end + 1)
            } else if end < s.len() {
                s.subrange(i, end + 1) + without_markers(s, end + 1)
            } else {
                s.subrange(i, end) + without_markers(s, end + 1)
            }
        } else {
            Seq::empty()
        }
    } else {
        seq![s[i]] + without_markers(s, i + 1)
    }
}

/// A transcript without what is not speech, its words separated by single spaces.
pub open spec fn cleaned(raw: Seq<char>) -> Seq<char> {
    text::join(text::words(without_markers(raw, 0)), " "@)
}

/// Where the span that begins at `from` ends.
fn stop_at(s: &[char], c: char, from: usize) -> (r: usize)
    requires
        from <= s@.len(),
    ensures
        r == stop(s@, c, from as int),
        from <= r <= s@.len(),
{
    let mut i: usize = from;
    while i < s.len() && s[i] != c
        invariant
            from <= i <= s@.len(),
            stop(s@, c, from as int) == stop(s@, c, i as int),
        decreases s@.len() - i,
    {
        i = i + 1;
    }
    i
}

/// Whether the text in parentheses is a marker.
fn is_marker_text(inner: &[char]) -> (r: bool)
    ensures
        r == is_marker(inner@),
{
    let words = text::split_words(inner);
    if words.len() != 1 {
        return false;
    }
    assert(text::deep(words@)[0] == words@[0]@);
    let only = text::string_of(words[0].as_slice());
    let word = only.as_str().to_lowercase();
    text::same(word.as_str(), "silence") || text::same(word.as_str(), "blank_audio") || text::same(
        word.as_str(),
        "inaudible",
    )
}

/// Drops the recogniser's annotations and puts single spaces between the words.
pub fn clean_transcript(raw: &str) -> (r: String)
    ensures
        r@ == cleaned(raw@),
{
    let s = text::chars_of(raw);
    let n: usize = s.len();
    let mut kept: Vec<char> = Vec::new();
    let mut i: usize = 0;
    while i < n
        invariant
            n == s@.len(),
            s@ == raw@,
            without_markers(raw@, 0) == kept@ + without_markers(raw@, i as int),
        decreases n - i,
    {
        let c = s[i];
        let ghost before = kept@;
        if c == '[' {
            let end: usize = stop_at(s.as_slice(), ']', i + 1);
            kept.push(' ');
            assert(kept@ + without_markers(raw@, end + 1) =~= before + (seq![' ']
                + without_markers(raw@, end + 1)));
            if end == n {
                assert(without_markers(raw@, end + 1) =~= without_markers(raw@, n as int));
                i = n;
            } else {
                i = end + 1;
            }
        } else if c == '(' {
            let end: usize = stop_at(s.as_slice(), ')', i + 1);
            if end < n && is_marker_text(slice_subrange(s.as_slice(), i + 1, end)) {
                kept.push(' ');
                assert(kept@ + without_markers(raw@, end + 1) =~= before + (seq![' ']
                    + without_markers(raw@, end + 1)));
            } else if end < n {
                text::extend(&mut kept, slice_subrange(s.as_slice(), i, end + 1));
                assert(kept@ + without_markers(raw@, end + 1) =~= before + (s@.subrange(
                    i as int,
                    end + 1,
                ) + without_markers(raw@, end + 1)));
            } else {
                text::extend(&mut kept, slice_subrange(s.as_slice(), i, end));
                assert(kept@ + without_markers(raw@, end + 1) =~= before + (s@.subrange(
                    i as int,
                    end as int,
                ) + without_markers(raw@, end + 1)));
            }
            if end == n {
                assert(without_markers(raw@, end + 1) =~= without_markers(raw@, n as int));
                i = n;
            } else {
                i = end + 1;
            }
        } else {
            kept.push(c);
            assert(kept@ + without_markers(raw@, i + 1) =~= before + (seq![c] + without_markers(
                raw@,
                i + 1,
            )));
            i = i + 1;
        }
    }
    assert(kept@ + without_markers(raw@, i as int) =~= kept@);
    let parts = text::split_words(kept.as_slice());
    let joined = text::join_chars(&parts, " ");
    text::string_of(joined.as_slice())
}

/// A cleaned transcript is single-spaced: splitting it into words and joining them with
/// one space gives it back.
pub proof fn cleaned_transcripts_are_single_spaced(raw: Seq<char>)
    ensures
        text::join(text::words(cleaned(raw)), " "@) == cleaned(raw),
{
    let s = without_markers(raw, 0);
    text::words_hold_no_white_space(s);
    text::words_of_joined_words(text::words(s));
}

/// Speech without brackets and parentheses only has its white space put in order.
pub proof fn plain_speech_is_kept(raw: Seq<char>)
    requires
        !raw.contains('['),
        !raw.contains('('),
    ensures
        cleaned(raw) == text::join(text::words(raw), " "@),
{
    lemma_plain_from(raw, 0);
    assert(raw.skip(0) =~= raw);
}

proof fn lemma_plain_from(s: Seq<char>, i: int)
    requires
        !s.contains('['),
        !s.contains('('),
        0 <= i <= s.len(),
    ensures
        without_markers(s, i) == s.skip(i),
    decreases s.len() - i,
{
    if i < s.len() {
        assert(s.contains(s[i]));
        lemma_plain_from(s, i + 1);
        assert(seq![s[i]] + s.skip(i + 1) =~= s.skip(i));
    } else {
        assert(s.skip(i) =~= Seq::empty());
    }
}

/// Without parentheses in the transcript, no bracket is left in what is kept.
pub proof fn bracketed_spans_are_dropped(raw: Seq<char>, i: int)
    requires
        !raw.contains('('),
        0 <= i,
    ensures
        !without_markers(raw, i).contains('['),
    decreases raw.len() + 1 - i,
{
    if i < raw.len() {
        assert(raw.contains(raw[i]));
        if raw[i] == '[' {
            let end = stop(raw, ']', i + 1);
            lemma_stop(raw, ']', i + 1);
            bracketed_spans_are_dropped(raw, end + 1);
            let rest = without_markers(raw, end + 1);
            assert forall|k: int| 0 <= k < (seq![' '] + rest).len() implies (seq![' '] + rest)[k]
                != '[' by {
                if k > 0 {
                    assert(rest.contains(rest[k - 1]));
                }
            }
        } else {
            bracketed_spans_are_dropped(raw, i + 1);
            let rest = without_markers(raw, i + 1);
            assert forall|k: int| 0 <= k < (seq![raw[i]] + rest).len() implies (seq![raw[i]]
                + rest)[k] != '[' by {
                if k > 0 {
                    assert(rest.contains(rest[k - 1]));
                }
            }
        }
    }
}

proof fn lemma_plain_front(s: Seq<char>, i: int, n: int)
    requires
        0 <= i <= n <= s.len(),
        forall|k: int| i <= k < n ==> s[k] != '[' && s[k] != '(',
    ensures
        without_markers(s, i) == s.subrange(i, n) + without_markers(s, n),
    decreases n - i,
{
    if i < n {
        lemma_plain_front(s, i + 1, n);
        assert(seq![s[i]] + (s.subrange(i + 1, n) + without_markers(s, n)) =~= s.subrange(i, n)
            + without_markers(s, n));
    } else {
        assert(s.subrange(i, n) + without_markers(s, n) =~= without_markers(s, n));
    }
}

proof fn lemma_stop_is(s: Seq<char>, c: char, i: int, n: int)
    requires
        0 <= i <= n <= s.len(),
        forall|k: int| i <= k < n ==> s[k] != c,
        n < s.len() ==> s[n] == c,
    ensures
        stop(s, c, i) == n,
    decreases n - i,
{
    if i < n {
        lemma_stop_is(s, c, i + 1, n);
    }
}

/// What stands in closed parentheses is speech like any other, unless it is one of the three
/// words that stand for silence, a blank or something inaudible: then it goes, and what was said
/// before it and behind it stays.
pub proof fn only_the_three_markers_are_dropped(a: Seq<char>, inner: Seq<char>, b: Seq<char>)
    requires
        !a.contains('[') && !a.contains('('),
        !b.contains('[') && !b.contains('('),
        !inner.contains(')'),
    ensures
        ({
            let raw = a + seq!['('] + inner + seq![')'] + b;
            let word = text::lowercase(text::trimmed(inner));
            let marker = word == "silence"@ || word == "blank_audio"@ || word == "inaudible"@;
            &&& !marker ==> cleaned(raw) == text::join(text::words(raw), " "@)
            &&& marker && text::is_word(text::trimmed(inner)) ==> cleaned(raw) == text::join(
                text::words(a) + text::words(b),
                " "@,
            )
        }),
{
    let raw = a + seq!['('] + inner + seq![')'] + b;
    let n = a.len() as int;
    let end = n + 1 + inner.len();
    assert forall|k: int| 0 <= k < n implies raw[k] != '[' && raw[k] != '(' by {
        assert(raw[k] == a[k]);
        assert(a.contains(a[k]));
    }
    lemma_plain_front(raw, 0, n);
    assert forall|k: int| n + 1 <= k < end implies raw[k] != ')' by {
        assert(raw[k] == inner[k - n - 1]);
        assert(inner.contains(inner[k - n - 1]));
    }
    lemma_stop_is(raw, ')', n + 1, end);
    assert forall|k: int| end + 1 <= k < raw.len() implies raw[k] != '[' && raw[k] != '(' by {
        assert(raw[k] == b[k - end - 1]);
        assert(b.contains(b[k - end - 1]));
    }
    lemma_plain_front(raw, end + 1, raw.len() as int);
    assert(without_markers(raw, end + 1) =~= b);
    assert(raw.subrange(n + 1, end) =~= inner);
    assert(raw[n] == '(');
    let t = text::trimmed(inner);
    text::outer_white_space_holds_no_words(inner);
    text::trim_removes_only_outer_white_space(inner);
    text::words_are_what_stands_between_white_space(t);
    if is_marker(inner) {
        assert(t.len() > 0);
        assert(text::words(inner)[0] == t);
        assert(without_markers(raw, 0) =~= a.push(' ') + b);
        text::white_space_separates_words(a, ' ', b);
    } else {
        assert(without_markers(raw, 0) =~= raw);
    }
}

/// A bracketed span goes whatever is in it, and what was said before it and behind it stays; one
/// that is not closed goes with all that follows.
pub proof fn brackets_go_whatever_is_in_them(a: Seq<char>, inner: Seq<char>, b: Seq<char>)
    requires
        !a.contains('[') && !a.contains('('),
        !b.contains('[') && !b.contains('('),
        !inner.contains(']'),
    ensures
        cleaned(a + seq!['['] + inner + seq![']'] + b) == text::join(
            text::words(a) + text::words(b),
            " "@,
        ),
        cleaned(a + seq!['['] + inner) == text::join(text::words(a), " "@),
{
    let open = a + seq!['['] + inner;
    let raw = open + seq![']'] + b;
    let n = a.len() as int;
    let end = n + 1 + inner.len();
    assert forall|k: int| 0 <= k < n implies raw[k] != '[' && raw[k] != '(' && open[k] == a[k] by {
        assert(raw[k] == a[k]);
        assert(a.contains(a[k]));
    }
    lemma_plain_front(raw, 0, n);
    lemma_plain_front(open, 0, n);
    assert forall|k: int| n + 1 <= k < end implies raw[k] != ']' && open[k] != ']' by {
        assert(raw[k] == inner[k - n - 1]);
        assert(open[k] == inner[k - n - 1]);
        assert(inner.contains(inner[k - n - 1]));
    }
    lemma_stop_is(raw, ']', n + 1, end);
    lemma_stop_is(open, ']', n + 1, end);
    assert forall|k: int| end + 1 <= k < raw.len() implies raw[k] != '[' && raw[k] != '(' by {
        assert(raw[k] == b[k - end - 1]);
        assert(b.contains(b[k - end - 1]));
    }
    lemma_plain_front(raw, end + 1, raw.len() as int);
    assert(without_markers(raw, end + 1) =~= b);
    assert(raw[n] == '[' && open[n] == '[');
    assert(without_markers(raw, 0) =~= a.push(' ') + b);
    assert(without_markers(open, end + 1) =~= Seq::empty());
    assert(without_markers(open, n) =~= seq![' ']);
    assert(without_markers(open, 0) =~= a.push(' ') + Seq::<char>::empty());
    text::white_space_separates_words(a, ' ', b);
    text::white_space_separates_words(a, ' ', Seq::empty());
    assert(text::words(a) + text::words(Seq::<char>::empty()) =~= text::words(a));
}

/// A parenthesis that is not closed is speech, whatever stands behind it.
pub proof fn open_parentheses_are_kept(a: Seq<char>, inner: Seq<char>)
    requires
        !a.contains('[') && !a.contains('('),
        !inner.contains(')'),
    ensures
        cleaned(a + seq!['('] + inner) == text::join(text::words(a + seq!['('] + inner), " "@),
{
    let raw = a + seq!['('] + inner;
    let n = a.len() as int;
    assert forall|k: int| 0 <= k < n implies raw[k] != '[' && raw[k] != '(' by {
        assert(raw[k] == a[k]);
        assert(a.contains(a[k]));
    }
    lemma_plain_front(raw, 0, n);
    assert forall|k: int| n + 1 <= k < raw.len() implies raw[k] != ')' by {
        assert(raw[k] == inner[k - n - 1]);
        assert(inner.contains(inner[k - n - 1]));
    }
    lemma_stop_is(raw, ')', n + 1, raw.len() as int);
    assert(raw[n] == '(');
    assert(without_markers(raw, raw.len() as int + 1) =~= Seq::empty());
    assert(without_markers(raw, 0) =~= raw);
}

/// Where a reader of a transcript stands: outside of parentheses, or inside, with the words
/// and the open word read there; or something that has to go was met.
pub enum Reader {
    Outside,
    Inside(Seq<Seq<char>>, Seq<char>),
    Met,
}

/// The reader after one more character.
pub open spec fn reads(r: Reader, c: char) -> Reader {
    match r {
        Reader::Outside => if c == '[' {
            Reader::Met
        } else if c == '(' {
            Reader::Inside(Seq::empty(), Seq::empty())
        } else {
            Reader::Outside
        },
        Reader::Inside(done, open) => if c == ')' {
            if marker_words(text::with_word(done, open)) {
                Reader::Met
            } else {
                Reader::Outside
            }
        } else if text::white_space(c) {
            Reader::Inside(text::with_word(done, open), Seq::empty())
        } else {
            Reader::Inside(done, open.push(c))
        },
        Reader::Met => Reader::Met,
    }
}

/// The reader after a text.
pub open spec fn reads_all(r: Reader, s: Seq<char>) -> Reader
    decreases s.len(),
{
    if s.len() == 0 {
        r
    } else {
        reads(reads_all(r, s.drop_last()), s.last())
    }
}

proof fn lemma_reads_on(r: Reader, a: Seq<char>, b: Seq<char>)
    ensures
        reads_all(r, a + b) == reads_all(reads_all(r, a), b),
    decreases b.len(),
{
    if b.len() == 0 {
        assert(a + b =~= a);
    } else {
        assert((a + b).drop_last() =~= a + b.drop_last());
        lemma_reads_on(r, a, b.drop_last());
    }
}

proof fn lemma_reads_one(r: Reader, c: char)
    ensures
        reads_all(r, seq![c]) == reads(r, c),
{
    assert(seq![c].drop_last() =~= Seq::empty());
    assert(reads_all(r, seq![c].drop_last()) == r);
}

/// Inside of parentheses the reader holds the words of what it has read there.
proof fn lemma_reads_inside(x: Seq<char>)
    requires
        !x.contains(')'),
    ensures
        reads_all(Reader::Inside(Seq::empty(), Seq::empty()), x) == Reader::Inside(
            text::scan_words(x).0,
            text::scan_words(x).1,
        ),
    decreases x.len(),
{
    if x.len() > 0 {
        let y = x.drop_last();
        assert forall|k: int| 0 <= k < y.len() implies y[k] != ')' by {
            assert(x.contains(x[k]));
        }
        lemma_reads_inside(y);
        assert(x.contains(x[x.len() - 1]));
    }
}

/// The reader goes over a whole parenthesis, closed or not, as over the words in it.
proof fn lemma_reads_parenthesis(inner: Seq<char>)
    requires
        !inner.contains(')'),
    ensures
        !(reads_all(Reader::Outside, seq!['('] + inner) is Met),
        reads_all(Reader::Outside, seq!['('] + inner + seq![')']) == if is_marker(inner) {
            Reader::Met
        } else {
            Reader::Outside
        },
{
    lemma_reads_on(Reader::Outside, seq!['('], inner);
    lemma_reads_one(Reader::Outside, '(');
    lemma_reads_inside(inner);
    let before = seq!['('] + inner;
    lemma_reads_on(Reader::Outside, before, seq![')']);
    lemma_reads_one(reads_all(Reader::Outside, before), ')');
}

/// In what is left of a transcript there is nothing that has to go.
proof fn lemma_nothing_is_met(s: Seq<char>, i: int)
    requires
        0 <= i,
    ensures
        !(reads_all(Reader::Outside, without_markers(s, i)) is Met),
    decreases s.len() + 1 - i,
{
    if i < s.len() {
        if s[i] == '[' || s[i] == '(' {
            let close = if s[i] == '[' {
                ']'
            } else {
                ')'
            };
            let end = stop(s, close, i + 1);
            lemma_stop(s, close, i + 1);
            lemma_nothing_is_met(s, end + 1);
            let rest = without_markers(s, end + 1);
            let inner = s.subrange(i + 1, end);
            if s[i] == '[' || (is_marker(inner) && end < s.len()) {
                lemma_reads_on(Reader::Outside, seq![' '], rest);
                lemma_reads_one(Reader::Outside, ' ');
            } else {
                assert forall|k: int| 0 <= k < inner.len() implies inner[k] != ')' by {
                    assert(inner[k] == s[i + 1 + k]);
                }
                lemma_reads_parenthesis(inner);
                if end < s.len() {
                    assert(s.subrange(i, end + 1) =~= seq!['('] + inner + seq![')']);
                    lemma_reads_on(Reader::Outside, s.subrange(i, end + 1), rest);
                } else {
                    assert(s.subrange(i, end) =~= seq!['('] + inner);
                    assert(s.subrange(i, end) + rest =~= seq!['('] + inner);
                }
            }
        } else {
            lemma_nothing_is_met(s, i + 1);
            let rest = without_markers(s, i + 1);
            lemma_reads_on(Reader::Outside, seq![s[i]], rest);
            lemma_reads_one(Reader::Outside, s[i]);
        }
    }
}

/// What holds nothing that has to go is left as it is.
proof fn lemma_nothing_goes(s: Seq<char>, i: int)
    requires
        0 <= i <= s.len(),
        !(reads_all(Reader::Outside, s.skip(i)) is Met),
    ensures
        without_markers(s, i) == s.skip(i),
    decreases s.len() - i,
{
    if i < s.len() {
        let x = s.skip(i);
        if s[i] == '(' {
            let end = stop(s, ')', i + 1);
            lemma_stop(s, ')', i + 1);
            let inner = s.subrange(i + 1, end);
            assert forall|k: int| 0 <= k < inner.len() implies inner[k] != ')' by {
                assert(inner[k] == s[i + 1 + k]);
            }
            lemma_reads_parenthesis(inner);
            if end < s.len() {
                assert(x =~= (seq!['('] + inner + seq![')']) + s.skip(end + 1));
                lemma_reads_on(
                    Reader::Outside,
                    seq!['('] + inner + seq![')'],
                    s.skip(end + 1),
                );
                lemma_met_stays(s.skip(end + 1));
                lemma_nothing_goes(s, end + 1);
                assert(s.subrange(i, end + 1) + s.skip(end + 1) =~= x);
            } else {
                assert(without_markers(s, end + 1) =~= Seq::empty());
                assert(s.subrange(i, end) + without_markers(s, end + 1) =~= x);
            }
        } else {
            assert(x =~= seq![s[i]] + s.skip(i + 1));
            lemma_reads_on(Reader::Outside, seq![s[i]], s.skip(i + 1));
            lemma_reads_one(Reader::Outside, s[i]);
            lemma_met_stays(s.skip(i + 1));
            lemma_nothing_goes(s, i + 1);
        }
    } else {
        assert(s.skip(i) =~= Seq::empty());
    }
}

proof fn lemma_met_stays(s: Seq<char>)
    ensures
        reads_all(Reader::Met, s) is Met,
    decreases s.len(),
{
    if s.len() > 0 {
        lemma_met_stays(s.drop_last());
    }
}

/// The words of `t` with single spaces between them.
pub open spec fn single_spaced(t: Seq<char>) -> Seq<char> {
    text::join(text::words(t), " "@)
}

/// One more character of a word lengthens the last word, or begins one.
proof fn lemma_joined_push(words: Seq<Seq<char>>, w: Seq<char>, c: char)
    ensures
        text::join(words.push(w.push(c)), " "@) == text::join(words.push(w), " "@).push(c),
        text::join(words.push(seq![c]), " "@) == if words.len() == 0 {
            seq![c]
        } else {
            (text::join(words, " "@) + " "@).push(c)
        },
{
    assert(words.push(w.push(c)).drop_last() =~= words);
    assert(words.push(w).drop_last() =~= words);
    assert(words.push(seq![c]).drop_last() =~= words);
    assert(text::join(words.push(w.push(c)), " "@) =~= text::join(words.push(w), " "@).push(c));
    if words.len() > 0 {
        assert(text::join(words.push(seq![c]), " "@) =~= (text::join(words, " "@) + " "@).push(c));
    }
}

/// To the reader white space is white space, however much of it there is.
proof fn lemma_spacing_is_not_seen(t: Seq<char>)
    ensures
        ({
            let seen = reads_all(Reader::Outside, single_spaced(t));
            reads_all(Reader::Outside, t) == if t.len() > 0 && text::white_space(t.last()) {
                reads(seen, ' ')
            } else {
                seen
            }
        }),
    decreases t.len(),
{
    reveal_strlit(" ");
    assert(" "@ =~= seq![' ']);
    if t.len() == 0 {
        assert(text::words(t) =~= Seq::empty());
        assert(single_spaced(t) =~= t);
    } else {
        let u = t.drop_last();
        let c = t.last();
        lemma_spacing_is_not_seen(u);
        let (done, open) = text::scan_words(u);
        let n = single_spaced(u);
        let seen = reads_all(Reader::Outside, n);
        if text::white_space(c) {
            assert(text::words(t) == text::words(u));
            assert(reads(reads(seen, ' '), ' ') == reads(seen, ' '));
            assert(reads(seen, c) == reads(seen, ' '));
            assert(reads(reads(seen, ' '), c) == reads(seen, ' '));
        } else {
            lemma_open_word(u);
            assert(text::words(t) == done.push(open.push(c)));
            lemma_joined_push(done, open, c);
            if open.len() > 0 {
                assert(single_spaced(t) =~= n.push(c));
                lemma_reads_on(Reader::Outside, n, seq![c]);
                lemma_reads_one(seen, c);
                assert(n.push(c) =~= n + seq![c]);
            } else {
                assert(open.push(c) =~= seq![c]);
                if done.len() == 0 {
                    assert(n =~= Seq::empty());
                    assert(single_spaced(t) =~= seq![c]);
                    lemma_reads_one(Reader::Outside, c);
                } else {
                    let spaced = n + " "@;
                    assert(single_spaced(t) =~= spaced.push(c));
                    assert(spaced.push(c) =~= spaced + seq![c]);
                    lemma_reads_on(Reader::Outside, n, seq![' ']);
                    lemma_reads_one(seen, ' ');
                    lemma_reads_on(Reader::Outside, spaced, seq![c]);
                    lemma_reads_one(reads_all(Reader::Outside, spaced), c);
                }
            }
        }
    }
}

/// A word is open exactly behind a character of it; and where there are words but none is
/// open, there is white space.
proof fn lemma_open_word(u: Seq<char>)
    ensures
        (text::scan_words(u).1.len() > 0) == (u.len() > 0 && !text::white_space(u.last())),
        u.len() == 0 ==> text::scan_words(u).0.len() == 0,
    decreases u.len(),
{
}

/// Cleaning a transcript twice is cleaning it once.
pub proof fn cleaning_twice_is_cleaning_once(raw: Seq<char>)
    ensures
        cleaned(cleaned(raw)) == cleaned(raw),
{
    let t = without_markers(raw, 0);
    let c = cleaned(raw);
    lemma_nothing_is_met(raw, 0);
    lemma_spacing_is_not_seen(t);
    assert(c == single_spaced(t));
    assert(c.skip(0) =~= c);
    lemma_nothing_goes(c, 0);
    cleaned_transcripts_are_single_spaced(raw);
}

/// The only white space in a cleaned transcript is a single space between two words.
pub proof fn cleaned_transcripts_hold_single_spaces(raw: Seq<char>, i: int)
    requires
        0 <= i < cleaned(raw).len(),
        text::white_space(cleaned(raw)[i]),
    ensures
        cleaned(raw)[i] == ' ',
        0 < i < cleaned(raw).len() - 1,
        !text::white_space(cleaned(raw)[i - 1]),
        !text::white_space(cleaned(raw)[i + 1]),
{
    let words = text::words(without_markers(raw, 0));
    text::words_hold_no_white_space(without_markers(raw, 0));
    lemma_joined_spaces(words, i);
}

proof fn lemma_joined_spaces(words: Seq<Seq<char>>, i: int)
    requires
        forall|k: int| 0 <= k < words.len() ==> text::is_word(#[trigger] words[k]),
    ensures
        words.len() > 0 ==> text::join(words, " "@).len() > 0 && !text::white_space(
            text::join(words, " "@).last(),
        ),
        0 <= i < text::join(words, " "@).len() && text::white_space(text::join(words, " "@)[i])
            ==> {
            &&& text::join(words, " "@)[i] == ' '
            &&& 0 < i < text::join(words, " "@).len() - 1
            &&& !text::white_space(text::join(words, " "@)[i - 1])
            &&& !text::white_space(text::join(words, " "@)[i + 1])
        },
    decreases words.len(),
{
    reveal_strlit(" ");
    let j = text::join(words, " "@);
    if words.len() == 1 {
        assert(text::is_word(words[0]));
    } else if words.len() > 1 {
        let front = words.drop_last();
        assert forall|k: int| 0 <= k < front.len() implies text::is_word(#[trigger] front[k]) by {
            assert(front[k] == words[k]);
        }
        lemma_joined_spaces(front, i);
        let f = text::join(front, " "@);
        let w = words.last();
        assert(text::is_word(words[words.len() - 1]));
        assert(j == f + " "@ + w);
        if 0 <= i < j.len() && text::white_space(j[i]) {
            if i > f.len() {
                assert(j[i] == w[i - f.len() - 1]);
            } else if i == f.len() {
                assert(j[i + 1] == w[0]);
            }
        }
    }
}

// ---------------------------------------------------------------- samples

/// The 32-bit words of `bytes`, the lowest byte of each first. What is left over of less
/// than four bytes is dropped.
pub open spec fn words32(b: Seq<u8>) -> Seq<u32> {
    Seq::new(b.len() / 4, |i: int| bytes::from_le32(b.subrange(4 * i, 4 * i + 4)))
}

/// Every four bytes are one word, the lowest byte first, in their order; up to three bytes at the
/// end are left over.
pub proof fn four_bytes_are_one_word(b: Seq<u8>, i: int)
    requires
        0 <= 4 * i,
        4 * i + 4 <= b.len(),
    ensures
        4 * words32(b).len() <= b.len() < 4 * words32(b).len() + 4,
        words32(b)[i] == b[4 * i] + 256 * b[4 * i + 1] + 65536 * b[4 * i + 2] + 16777216 * b[4 * i
            + 3],
{
    let w = b.subrange(4 * i, 4 * i + 4);
    assert(w[0] == b[4 * i] && w[1] == b[4 * i + 1] && w[2] == b[4 * i + 2] && w[3] == b[4 * i + 3]);
}

/// Decodes little-endian single precision samples, each to its bits.
pub fn decode_f32_le(data: &[u8]) -> (r: Vec<u32>)
    ensures
        r@ == words32(data@),
{
    let total: usize = data.len();
    let n: usize = total / 4;
    let mut out: Vec<u32> = Vec::new();
    let mut i: usize = 0;
    while i < n
        invariant
            total == data@.len(),
            i <= n == total / 4,
            out@ == words32(data@).take(i as int),
        decreases n - i,
    {
        let k: usize = 4 * i;
        let v: u32 = data[k] as u32 + data[k + 1] as u32 * 256 + data[k + 2] as u32 * 65536
            + data[k + 3] as u32 * 16777216;
        assert(data@.subrange(4 * i, 4 * i + 4)[0] == data@[4 * i]);
        assert(data@.subrange(4 * i, 4 * i + 4)[1] == data@[4 * i + 1]);
        assert(data@.subrange(4 * i, 4 * i + 4)[2] == data@[4 * i + 2]);
        assert(data@.subrange(4 * i, 4 * i + 4)[3] == data@[4 * i + 3]);
        assert(v == words32(data@)[i as int]);
        out.push(v);
        i = i + 1;
        assert(words32(data@).take(i as int) =~= words32(data@).take(i - 1).push(
            words32(data@)[i - 1],
        ));
    }
    assert(words32(data@).take(n as int) =~= words32(data@));
    out
}

/// Ten minutes of mono at 16 kHz.
pub const MAX_SAMPLES: usize = 9_600_000;

/// The samples of the stream that make one sample of the result: three stereo frames.
pub const GROUP: usize = 6;

/// Cuts the microphone stream into groups as it arrives. What does not fill a group is
/// carried over to the next chunk.
pub struct DictationBuffer {
    active: bool,
    carry: Vec<u32>,
    kept: usize,
    overflowed: bool,
}

/// The state of a dictation, mathematically.
#[verifier::ext_equal]
pub struct DictationView {
    /// A session is running.
    pub active: bool,
    /// Samples that do not fill a group yet.
    pub carry: Seq<u32>,
    /// The groups handed out in this session.
    pub kept: nat,
    /// The cap was hit and groups were dropped.
    pub overflowed: bool,
}

impl View for DictationBuffer {
    type V = DictationView;

    closed spec fn view(&self) -> DictationView {
        DictationView {
            active: self.active,
            carry: self.carry@,
            kept: self.kept as nat,
            overflowed: self.overflowed,
        }
    }
}

impl DictationView {
    /// The carry is less than a group, and no more than the cap is handed out.
    pub open spec fn well_formed(self) -> bool {
        self.carry.len() < GROUP && self.kept <= MAX_SAMPLES
    }

    /// The groups that are complete once `chunk` has arrived.
    pub open spec fn complete(self, chunk: Seq<u32>) -> nat {
        (self.carry + chunk).len() / GROUP as nat
    }

    /// The groups among them that the cap lets through.
    pub open spec fn accepted(self, chunk: Seq<u32>) -> nat {
        if self.kept + self.complete(chunk) <= MAX_SAMPLES {
            self.complete(chunk)
        } else {
            (MAX_SAMPLES - self.kept) as nat
        }
    }

    /// The samples of the accepted groups, six each.
    pub open spec fn emitted(self, chunk: Seq<u32>) -> Seq<u32> {
        if self.active {
            (self.carry + chunk).take((GROUP * self.accepted(chunk)) as int)
        } else {
            Seq::empty()
        }
    }

    /// The state once `chunk` has arrived.
    pub open spec fn pushed(self, chunk: Seq<u32>) -> DictationView {
        if self.active {
            DictationView {
                active: true,
                carry: (self.carry + chunk).skip((GROUP * self.complete(chunk)) as int),
                kept: self.kept + self.accepted(chunk),
                overflowed: self.overflowed || self.kept + self.complete(chunk) > MAX_SAMPLES,
            }
        } else {
            self
        }
    }
}

/// The state at the beginning of a session.
pub open spec fn started() -> DictationView {
    DictationView { active: true, carry: Seq::empty(), kept: 0, overflowed: false }
}

impl Default for DictationBuffer {
    fn default() -> (r: Self)
        ensures
            r@ == (DictationView { active: false, ..started() }),
            r@.well_formed(),
    {
        let r = DictationBuffer { active: false, carry: Vec::new(), kept: 0, overflowed: false };
        assert(r@.carry =~= Seq::empty());
        r
    }
}

impl DictationBuffer {
    #[verifier::type_invariant]
    spec fn type_ok(self) -> bool {
        self.carry@.len() < GROUP && self.kept <= MAX_SAMPLES
    }

    /// Whether a session is running.
    pub fn is_active(&self) -> (r: bool)
        ensures
            r == self@.active,
    {
        self.active
    }

    /// Whether the cap was hit and audio was dropped.
    pub fn overflowed(&self) -> (r: bool)
        ensures
            r == self@.overflowed,
    {
        self.overflowed
    }

    /// Begins a session; what was left of the last one is discarded.
    pub fn start(&mut self)
        ensures
            final(self)@ == started(),
            final(self)@.well_formed(),
    {
        proof {
            use_type_invariant(&*self);
        }
        self.active = true;
        self.carry = Vec::new();
        self.kept = 0;
        self.overflowed = false;
        assert(self@.carry =~= Seq::empty());
    }

    /// Takes a chunk of interleaved stereo samples and hands out the samples of the
    /// groups that are now complete, six each. Without a session nothing happens.
    pub fn push(&mut self, interleaved: &[u32]) -> (r: Vec<u32>)
        ensures
            r@ == old(self)@.emitted(interleaved@),
            final(self)@ == old(self)@.pushed(interleaved@),
            final(self)@.well_formed(),
    {
        proof {
            use_type_invariant(&*self);
        }
        let mut out: Vec<u32> = Vec::new();
        if !self.active {
            assert(out@ =~= Seq::empty());
            return out;
        }
        let ghost start = self@;
        let mut carry: Vec<u32> = Vec::new();
        let mut k: usize = 0;
        while k < self.carry.len()
            invariant
                k <= self.carry@.len(),
                carry@ == self.carry@.take(k as int),
            decreases self.carry@.len() - k,
        {
            carry.push(self.carry[k]);
            k = k + 1;
            assert(carry@ =~= self.carry@.take(k as int));
        }
        assert(carry@ =~= self.carry@);
        let mut kept: usize = self.kept;
        let mut overflowed = self.overflowed;
        let mut i: usize = 0;
        proof {
            assert(interleaved@.take(0) =~= Seq::empty());
            assert(start.carry + Seq::<u32>::empty() =~= start.carry);
            assert(out@ =~= start.emitted(interleaved@.take(0)));
            assert(start.pushed(interleaved@.take(0)) =~= start);
        }
        while i < interleaved.len()
            invariant
                i <= interleaved@.len(),
                start.well_formed(),
                start.active,
                out@ == start.emitted(interleaved@.take(i as int)),
                start.pushed(interleaved@.take(i as int)) == (DictationView {
                    active: true,
                    carry: carry@,
                    kept: kept as nat,
                    overflowed,
                }),
                carry@.len() < GROUP,
                kept <= MAX_SAMPLES,
            decreases interleaved@.len() - i,
        {
            let ghost before = start.pushed(interleaved@.take(i as int));
            let ghost held = carry@;
            let x: u32 = interleaved[i];
            proof {
                chunking_does_not_matter(start, interleaved@.take(i as int), seq![x]);
                assert(interleaved@.take(i as int) + seq![x] =~= interleaved@.take(i + 1));
                assert(held + seq![x] =~= held.push(x));
            }
            carry.push(x);
            if carry.len() == GROUP {
                if kept < MAX_SAMPLES {
                    let ghost sent = out@;
                    let mut j: usize = 0;
                    while j < GROUP
                        invariant
                            j <= GROUP == carry@.len(),
                            out@ == sent + carry@.take(j as int),
                        decreases GROUP - j,
                    {
                        out.push(carry[j]);
                        j = j + 1;
                        assert(out@ =~= sent + carry@.take(j as int));
                    }
                    kept = kept + 1;
                    assert(before.emitted(seq![x]) =~= carry@);
                    assert(out@ =~= sent + carry@);
                } else {
                    overflowed = true;
                    assert(before.emitted(seq![x]) =~= Seq::empty());
                    assert(out@ =~= out@ + before.emitted(seq![x]));
                }
                carry = Vec::new();
                assert(before.pushed(seq![x]).carry =~= carry@);
            } else {
                assert(before.emitted(seq![x]) =~= Seq::empty());
                assert(out@ =~= out@ + before.emitted(seq![x]));
                assert(before.pushed(seq![x]).carry =~= carry@);
            }
            i = i + 1;
        }
        assert(interleaved@.take(i as int) =~= interleaved@);
        self.kept = kept;
        self.carry = carry;
        self.overflowed = overflowed;
        out
    }

    /// Ends the session and says how many groups were handed out in it.
    pub fn finish(&mut self) -> (r: usize)
        ensures
            r == old(self)@.kept,
            final(self)@ == (DictationView {
                active: false,
                carry: Seq::empty(),
                kept: 0,
                overflowed: old(self)@.overflowed,
            }),
            final(self)@.well_formed(),
    {
        proof {
            use_type_invariant(&*self);
        }
        self.active = false;
        self.carry = Vec::new();
        let n: usize = self.kept;
        self.kept = 0;
        assert(self@.carry =~= Seq::empty());
        n
    }
}

/// How the stream is cut into chunks does not matter: two chunks in turn hand out the
/// same samples and leave the same state as the two put together.
pub proof fn chunking_does_not_matter(d: DictationView, a: Seq<u32>, b: Seq<u32>)
    requires
        d.well_formed(),
    ensures
        d.emitted(a) + d.pushed(a).emitted(b) == d.emitted(a + b),
        d.pushed(a).pushed(b) == d.pushed(a + b),
{
    if d.active {
        let all = d.carry + (a + b);
        let first = d.carry + a;
        let g1 = d.complete(a) as int;
        let after = d.pushed(a);
        let g2 = after.complete(b) as int;
        let second = after.carry + b;
        assert(first.skip(6 * g1) + b =~= all.skip(6 * g1));
        assert(second =~= all.skip(6 * g1));
        assert(d.complete(a + b) == g1 + g2);
        assert(d.emitted(a) + after.emitted(b) =~= d.emitted(a + b));
        assert(after.pushed(b).carry =~= d.pushed(a + b).carry);
        assert(d.pushed(a).pushed(b) =~= d.pushed(a + b));
    } else {
        assert(d.emitted(a) + d.pushed(a).emitted(b) =~= d.emitted(a + b));
    }
}

/// What a push hands out is the stream as it came: what was carried and then the chunk, from its
/// beginning and without a change; and below the cap nothing is lost, since what is not handed
/// out is carried.
pub proof fn the_stream_is_handed_out_unaltered(d: DictationView, chunk: Seq<u32>)
    requires
        d.well_formed(),
        d.active,
    ensures
        ({
            let stream = d.carry + chunk;
            let out = d.emitted(chunk);
            let after = d.pushed(chunk);
            &&& out.len() <= stream.len()
            &&& forall|i: int| 0 <= i < out.len() ==> #[trigger] out[i] == stream[i]
            &&& d.kept + stream.len() / 6 <= 9_600_000 ==> out + after.carry == stream
                && after.carry.len() < 6 && after.overflowed == d.overflowed
            &&& d.kept + stream.len() / 6 > 9_600_000 ==> out.len() == 6 * (9_600_000 - d.kept)
                && after.overflowed
            &&& 6 * (after.kept - d.kept) == out.len()
            &&& after.active
        }),
{
    let stream = d.carry + chunk;
    assert(6 * (stream.len() / 6) <= stream.len());
    if d.kept + stream.len() / 6 <= 9_600_000 {
        assert(d.emitted(chunk) + d.pushed(chunk).carry =~= stream);
    }
}

/// What chunks make when they are put together.
pub open spec fn put_together(chunks: Seq<Seq<u32>>) -> Seq<u32>
    decreases chunks.len(),
{
    if chunks.len() == 0 {
        Seq::empty()
    } else {
        put_together(chunks.drop_last()) + chunks.last()
    }
}

/// The state after chunks in turn.
pub open spec fn pushed_all(d: DictationView, chunks: Seq<Seq<u32>>) -> DictationView
    decreases chunks.len(),
{
    if chunks.len() == 0 {
        d
    } else {
        pushed_all(d, chunks.drop_last()).pushed(chunks.last())
    }
}

/// What chunks in turn hand out.
pub open spec fn emitted_all(d: DictationView, chunks: Seq<Seq<u32>>) -> Seq<u32>
    decreases chunks.len(),
{
    if chunks.len() == 0 {
        Seq::empty()
    } else {
        emitted_all(d, chunks.drop_last()) + pushed_all(d, chunks.drop_last()).emitted(
            chunks.last(),
        )
    }
}

/// A whole session, in whatever chunks its stream comes: while it lasts no longer than ten
/// minutes, what was handed out and what is carried at its end are the stream itself. Of a longer
/// one the first ten minutes are handed out, and it is known that some was dropped.
pub proof fn sessions_hand_out_their_stream(chunks: Seq<Seq<u32>>)
    ensures
        ({
            let stream = put_together(chunks);
            let out = emitted_all(started(), chunks);
            let after = pushed_all(started(), chunks);
            &&& stream.len() / 6 <= 9_600_000 ==> out + after.carry == stream && after.carry.len()
                < 6 && !after.overflowed && after.kept == stream.len() / 6
            &&& stream.len() / 6 > 9_600_000 ==> out == stream.take(57_600_000)
                && after.overflowed && after.kept == 9_600_000
        }),
{
    let stream = put_together(chunks);
    let d = started();
    lemma_all_chunks(d, chunks);
    the_stream_is_handed_out_unaltered(d, stream);
    assert(d.carry + stream =~= stream);
    if stream.len() / 6 > 9_600_000 {
        assert(emitted_all(d, chunks) =~= stream.take(57_600_000));
    }
}

proof fn lemma_all_chunks(d: DictationView, chunks: Seq<Seq<u32>>)
    requires
        d.well_formed(),
        d.active,
    ensures
        emitted_all(d, chunks) == d.emitted(put_together(chunks)),
        pushed_all(d, chunks) == d.pushed(put_together(chunks)),
    decreases chunks.len(),
{
    if chunks.len() == 0 {
        assert(d.carry + Seq::<u32>::empty() =~= d.carry);
        assert(d.emitted(Seq::empty()) =~= Seq::empty());
        assert(d.pushed(Seq::empty()) =~= d);
    } else {
        lemma_all_chunks(d, chunks.drop_last());
        chunking_does_not_matter(d, put_together(chunks.drop_last()), chunks.last());
    }
}

/// Without a session nothing is handed out and nothing changes, and a session begins with nothing
/// left of the last one.
pub proof fn nothing_is_taken_without_a_session(d: DictationView, chunk: Seq<u32>)
    ensures
        !d.active ==> d.emitted(chunk).len() == 0 && d.pushed(chunk) == d,
        started().active && started().carry.len() == 0 && started().kept == 0,
        !started().overflowed,
{
}

/// No session ever hands out more than the cap, and what it hands out is whole groups.
pub proof fn the_cap_holds(d: DictationView, chunk: Seq<u32>)
    requires
        d.well_formed(),
    ensures
        d.pushed(chunk).well_formed(),
        d.active ==> d.emitted(chunk).len() == GROUP * d.accepted(chunk),
        d.active ==> d.pushed(chunk).kept == d.kept + d.accepted(chunk),
{
    assert(GROUP * d.accepted(chunk) <= (d.carry + chunk).len());
}

/// Ten minutes of 16000 samples a second are kept, one of each group of six; a session that gets more
/// hands out no more, and says that it got too much.
pub proof fn sessions_end_after_ten_minutes(d: DictationView, chunk: Seq<u32>)
    requires
        d.active,
        d.well_formed(),
    ensures
        d.pushed(chunk).kept <= 10 * 60 * 16000,
        d.pushed(chunk).kept == d.kept + d.accepted(chunk),
        d.kept + (d.carry + chunk).len() / 6 <= 10 * 60 * 16000 ==> d.accepted(chunk) == (d.carry
            + chunk).len() / 6 && d.pushed(chunk).overflowed == d.overflowed,
        d.kept + (d.carry + chunk).len() / 6 > 10 * 60 * 16000 ==> d.kept + d.accepted(chunk) == 10
            * 60 * 16000 && d.pushed(chunk).overflowed,
        !started().overflowed && started().kept == 0 && started().carry.len() == 0,
{
}

// ---------------------------------------------------------------- files and programs

/// A path below `base`, with the separator between the two that Windows wants.
pub open spec fn joined_path(base: Seq<char>, name: Seq<char>) -> Seq<char> {
    if base.len() == 0 || base.last() == '\\' || base.last() == '/' || (base.len() == 2 && base[1]
        == ':' && text::ascii_alphabetic(base[0])) {
        base + name
    } else {
        base + "\\"@ + name
    }
}

/// A path below `base`.
pub fn join_path(base: &str, name: &str) -> (r: String)
    ensures
        r@ == joined_path(base@, name@),
{
    let chars = text::chars_of(base);
    let n: usize = chars.len();
    let bare_drive = n == 2 && chars[1] == ':' && text::is_ascii_alphabetic(chars[0]);
    let mut out = text::owned(base);
    if !(n == 0 || chars[n - 1] == '\\' || chars[n - 1] == '/' || bare_drive) {
        out.append("\\");
    }
    out.append(name);
    out
}

/// A path below a folder begins with the folder and ends with the name; between the two stands one
/// backslash, or nothing where the folder is empty, ends in a separator or is a bare drive.
pub proof fn names_follow_their_folder(base: Seq<char>, name: Seq<char>)
    ensures
        joined_path(base, name).take(base.len() as int) == base,
        joined_path(base, name).skip(joined_path(base, name).len() - name.len()) == name,
        base.len() > 2 && base.last() != '\\' && base.last() != '/' ==> joined_path(base, name).len()
            == base.len() + 1 + name.len() && joined_path(base, name)[base.len() as int] == '\\',
        base.len() > 0 && (base.last() == '\\' || base.last() == '/') ==> joined_path(base, name)
            == base + name,
        base == seq!['C', ':'] ==> joined_path(base, name) == base + name,
        base.len() == 0 ==> joined_path(base, name) == name,
{
    reveal_strlit("\\");
    assert(joined_path(base, name).take(base.len() as int) =~= base);
    assert(joined_path(base, name).skip(joined_path(base, name).len() - name.len()) =~= name);
    if base.len() == 0 {
        assert(base + name =~= name);
    }
}

/// The folder of the recogniser, below the folder of the user's application data or,
/// where that is not known, below the folder for temporary files.
pub open spec fn whisper_dir_of(local_app_data: Option<Seq<char>>, temp: Seq<char>) -> Seq<char> {
    let base = match local_app_data {
        Some(d) => d,
        None => temp,
    };
    joined_path(joined_path(base, "iphone-bridge"@), "whisper"@)
}

/// The folder of the recogniser.
pub fn whisper_dir(local_app_data: Option<&str>, temp: &str) -> (r: String)
    ensures
        r@ == whisper_dir_of(text::opt_str(local_app_data), temp@),
{
    let base = match local_app_data {
        Some(d) => d,
        None => temp,
    };
    let app = join_path(base, "iphone-bridge");
    join_path(app.as_str(), "whisper")
}

/// The recogniser.
pub fn whisper_exe(local_app_data: Option<&str>, temp: &str) -> (r: String)
    ensures
        r@ == joined_path(
            whisper_dir_of(text::opt_str(local_app_data), temp@),
            "whisper-cli.exe"@,
        ),
{
    let dir = whisper_dir(local_app_data, temp);
    join_path(dir.as_str(), "whisper-cli.exe")
}

/// The recogniser's model.
pub fn whisper_model(local_app_data: Option<&str>, temp: &str) -> (r: String)
    ensures
        r@ == joined_path(
            whisper_dir_of(text::opt_str(local_app_data), temp@),
            "ggml-large-v3-turbo-q5_0.bin"@,
        ),
{
    let dir = whisper_dir(local_app_data, temp);
    join_path(dir.as_str(), "ggml-large-v3-turbo-q5_0.bin")
}

/// The prompt that is handed to the recogniser, if there is one worth handing over.
pub open spec fn prompt_argument(prompt: Option<Seq<char>>) -> Option<Seq<char>> {
    match prompt {
        Some(p) => if text::blank(p) {
            None
        } else {
            Some(text::trimmed(p))
        },
        None => None,
    }
}

/// The arguments of the recogniser.
pub open spec fn whisper_arguments(
    model: Seq<char>,
    wav: Seq<char>,
    prompt: Option<Seq<char>>,
) -> Seq<Seq<char>> {
    let fixed = seq!["-m"@, model, "-f"@, wav, "--no-timestamps"@, "--no-prints"@];
    match prompt_argument(prompt) {
        Some(p) => fixed + seq!["--prompt"@, p],
        None => fixed,
    }
}

/// The recogniser gets the model behind `-m` and the recording behind `-f`. A prompt that is not
/// blank comes last, trimmed, behind `--prompt`; a blank one is as none.
pub proof fn the_recogniser_gets_model_recording_and_prompt(
    model: Seq<char>,
    wav: Seq<char>,
    prompt: Seq<char>,
)
    ensures
        ({
            let bare = whisper_arguments(model, wav, None);
            let with = whisper_arguments(model, wav, Some(prompt));
            &&& bare.len() == 6
            &&& bare[0] == "-m"@ && bare[1] == model
            &&& bare[2] == "-f"@ && bare[3] == wav
            &&& bare[4] == "--no-timestamps"@ && bare[5] == "--no-prints"@
            &&& text::blank(prompt) ==> with == bare
            &&& !text::blank(prompt) ==> with == bare.push("--prompt"@).push(text::trimmed(prompt))
        }),
{
    assert(!text::blank(prompt) ==> whisper_arguments(model, wav, Some(prompt))
        =~= whisper_arguments(model, wav, None).push("--prompt"@).push(text::trimmed(prompt)));
}

/// The arguments with which the recogniser is run on a WAV file.
pub fn whisper_args(model: &str, wav: &str, prompt: Option<&str>) -> (r: Vec<String>)
    ensures
        text::views(r@) == whisper_arguments(model@, wav@, text::opt_str(prompt)),
{
    let mut args: Vec<String> = vec![
        text::owned("-m"),
        text::owned(model),
        text::owned("-f"),
        text::owned(wav),
        text::owned("--no-timestamps"),
        text::owned("--no-prints"),
    ];
    if let Some(p) = prompt {
        if !text::is_blank(p) {
            args.push(text::owned("--prompt"));
            args.push(text::trim(p));
        }
    }
    assert(text::views(args@) =~= whisper_arguments(model@, wav@, text::opt_str(prompt)));
    args
}

/// The arguments of the converter that makes a WAV for the recogniser of any recording.
pub fn ffmpeg_args(source: &str, target: &str) -> (r: Vec<String>)
    ensures
        text::views(r@) == seq![
            "-y"@,
            "-loglevel"@,
            "error"@,
            "-i"@,
            source@,
            "-ac"@,
            "1"@,
            "-ar"@,
            text::decimal(TARGET_RATE as nat),
            "-c:a"@,
            "pcm_s16le"@,
            "-f"@,
            "wav"@,
            target@,
        ],
{
    let args: Vec<String> = vec![
        text::owned("-y"),
        text::owned("-loglevel"),
        text::owned("error"),
        text::owned("-i"),
        text::owned(source),
        text::owned("-ac"),
        text::owned("1"),
        text::owned("-ar"),
        text::decimal_of(TARGET_RATE as u64),
        text::owned("-c:a"),
        text::owned("pcm_s16le"),
        text::owned("-f"),
        text::owned("wav"),
        text::owned(target),
    ];
    assert(text::views(args@) =~= seq![
        "-y"@,
        "-loglevel"@,
        "error"@,
        "-i"@,
        source@,
        "-ac"@,
        "1"@,
        "-ar"@,
        text::decimal(TARGET_RATE as nat),
        "-c:a"@,
        "pcm_s16le"@,
        "-f"@,
        "wav"@,
        target@,
    ]);
    args
}

/// What came of a run of the recogniser: its exit status in words, whether that means
/// success, and what it wrote.
pub struct Run {
    pub success: bool,
    pub status: String,
    pub stdout: String,
    pub stderr: String,
}

/// The transcript of a run of the recogniser, or what went wrong.
pub fn transcribe_wav(run: &Run) -> (r: Result<String, String>)
    ensures
        match r {
            Ok(t) => run.success && t@ == cleaned(run.stdout@),
            Err(e) => !run.success && e@ == "whisper-cli exited with "@ + run.status@ + ": "@
                + text::trimmed(run.stderr@),
        },
{
    if run.success {
        Ok(clean_transcript(run.stdout.as_str()))
    } else {
        let mut e = text::owned("whisper-cli exited with ");
        e.append(run.status.as_str());
        e.append(": ");
        let detail = text::trim(run.stderr.as_str());
        e.append(detail.as_str());
        Err(e)
    }
}

/// The transcript of an uploaded recording: of the converter's run and, where that
/// succeeded, of the recogniser's run on what it made.
pub fn transcribe_upload(convert: &Run, recognise: &Run) -> (r: Result<String, String>)
    ensures
        match r {
            Ok(t) => convert.success && recognise.success && t@ == cleaned(recognise.stdout@),
            Err(e) => if convert.success {
                !recognise.success && e@ == "whisper-cli exited with "@ + recognise.status@ + ": "@
                    + text::trimmed(recognise.stderr@)
            } else {
                e@ == "could not decode the uploaded audio: "@ + text::trimmed(convert.stderr@)
            },
        },
{
    if !convert.success {
        let mut e = text::owned("could not decode the uploaded audio: ");
        let detail = text::trim(convert.stderr.as_str());
        e.append(detail.as_str());
        return Err(e);
    }
    transcribe_wav(recognise)
}

/// Whether the recogniser can be run: what is missing, if anything is.
pub fn recogniser_ready(
    exe: &str,
    exe_exists: bool,
    model: &str,
    model_exists: bool,
) -> (r: Result<(), String>)
    ensures
        if !exe_exists {
            r matches Err(e) && e@ == "whisper-cli.exe not found at "@ + exe@
        } else if !model_exists {
            r matches Err(e) && e@ == "whisper model not found at "@ + model@
        } else {
            r is Ok
        },
{
    if !exe_exists {
        return Err(pshell::concat("whisper-cli.exe not found at ", exe));
    }
    if !model_exists {
        return Err(pshell::concat("whisper model not found at ", model));
    }
    Ok(())
}

/// The name of a file that is needed for a moment: no two of one process share one.
pub open spec fn scratch_name_of(stem: Seq<char>, pid: u32, seq: u64) -> Seq<char> {
    stem + "-"@ + text::decimal(pid as nat) + "-"@ + text::decimal(seq as nat)
}

/// The name of a file that is needed for a moment.
pub fn scratch_name(stem: &str, pid: u32, seq: u64) -> (r: String)
    ensures
        r@ == scratch_name_of(stem@, pid, seq),
{
    let mut out = text::owned(stem);
    out.append("-");
    text::push_decimal(&mut out, pid as u64);
    out.append("-");
    text::push_decimal(&mut out, seq);
    out
}

/// Files of one process that are numbered differently have different names.
pub proof fn scratch_files_do_not_collide(stem: Seq<char>, pid: u32, a: u64, b: u64)
    requires
        a != b,
    ensures
        scratch_name_of(stem, pid, a) != scratch_name_of(stem, pid, b),
{
    let head = stem + "-"@ + text::decimal(pid as nat) + "-"@;
    let x = scratch_name_of(stem, pid, a);
    let y = scratch_name_of(stem, pid, b);
    if x == y {
        assert(x.skip(head.len() as int) =~= text::decimal(a as nat));
        assert(y.skip(head.len() as int) =~= text::decimal(b as nat));
        text::lemma_decimal_injective(a as nat, b as nat);
    }
}

/// The key events that type a text; none where there is nothing to deliver, and then the
/// clipboard stays as it is too.
pub fn deliver(text: &str) -> (r: Option<Vec<KeyEvent>>)
    ensures
        match r {
            Some(keys) => text@.len() > 0 && keys@ == keyboard::unit_events(
                crate::utf16::encoded(text@),
            ),
            None => text@.len() == 0,
        },
{
    let chars = crate::text::chars_of(text);
    if chars.len() == 0 {
        None
    } else {
        Some(keyboard::type_text(text))
    }
}

/// What comes of a recording of so many samples, given what was recognised in it, what came of
/// rewriting that, and whether the text could be delivered. Where nothing was recorded,
/// nothing comes of it.
pub fn finish_and_deliver(
    samples: usize,
    transcript: &Result<String, String>,
    cfg: &VoiceSettings,
    plan: &Plan,
    rewritten: &Result<String, String>,
    delivered: &Result<(), String>,
) -> (r: Result<Processed, String>)
    ensures
        if samples == 0 {
            r matches Ok(p) && p.raw@.len() == 0 && p.text@.len() == 0 && p.warning is None
        } else {
            match (transcript, delivered) {
                (Err(e), _) => r matches Err(m) && m@ == e@,
                (Ok(_), Err(e)) => r matches Err(m) && m@ == e@,
                (Ok(raw), Ok(_)) => r matches Ok(p) && p@ == voice::processed(
                    raw@,
                    cfg@,
                    plan.mode@,
                    pshell::result_view(*rewritten),
                    voice::DELIVERED_RAW@,
                ),
            }
        },
{
    if samples == 0 {
        return Ok(Processed { raw: String::new(), text: String::new(), warning: None });
    }
    match transcript {
        Err(e) => Err(text::owned(e.as_str())),
        Ok(raw) => match delivered {
            Err(e) => Err(text::owned(e.as_str())),
            Ok(_) => Ok(voice::apply(raw.as_str(), cfg, plan, rewritten)),
        },
    }
}

/// The recogniser lies in its own folder below that for the user's application data or, where that is
/// not known, below that for temporary files.
pub proof fn the_recogniser_has_its_own_folder(base: Seq<char>, temp: Seq<char>)
    requires
        base.len() > 2,
        base.last() != '\\',
        base.last() != '/',
    ensures
        whisper_dir_of(Some(base), temp) == base + "\\"@ + "iphone-bridge"@ + "\\"@ + "whisper"@,
        whisper_dir_of(None, base) == whisper_dir_of(Some(base), temp),
{
    reveal_strlit("iphone-bridge");
    let a = joined_path(base, "iphone-bridge"@);
    assert(a == base + "\\"@ + "iphone-bridge"@);
    assert(a.last() == "iphone-bridge"@[12]);
    assert("iphone-bridge"@[12] == 'e');
}

} // verus!

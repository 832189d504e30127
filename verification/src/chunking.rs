//! Splitting audio into upload-sized chunks and merging the transcripts of
//! overlapping chunks.
use vstd::prelude::*;
use vstd::string::*;
use crate::text::{
    all_ascii, ascii_lower, is_normalized, join_from, join_words, lemma_join_normalized,
    lemma_words_are_words, lowercase,
    lemma_words_of_join, lemma_words_of_spaced_concat, lowercase_all, lowercase_words, owned,
    split_words, words,
};

verus! {

/// A piece of recorded audio small enough to upload on its own.
#[derive(Debug)]
pub struct AudioChunk {
    pub data: Vec<u8>,
}

/// How audio is cut for a transcription service: the largest upload it
/// accepts, how much consecutive chunks overlap (in milliseconds of 16-bit
/// mono audio) and the sample rate that turns that time into bytes.
#[derive(Clone, Copy, Debug)]
pub struct ChunkConfig {
    pub max_size_bytes: usize,
    pub overlap_millis: u32,
    pub sample_rate: u32,
}

/// The overlap of a configuration in bytes of 16-bit mono audio.
pub open spec fn overlap_bytes(config: ChunkConfig) -> int {
    (config.overlap_millis as int) * (2 * config.sample_rate as int) / 1000
}

/// How far the start of each chunk lies past the start of the one before:
/// a full chunk less the overlap and half the overlap again.
pub open spec fn stride(config: ChunkConfig) -> int {
    config.max_size_bytes - overlap_bytes(config) - overlap_bytes(config) / 2
}

/// A configuration under which audio longer than one chunk can be split:
/// the byte rate fits in a `u32`, the overlap fits in a chunk and every
/// chunk starts past the one before.
pub open spec fn can_split(config: ChunkConfig) -> bool {
    &&& 2 * config.sample_rate <= u32::MAX
    &&& overlap_bytes(config) <= config.max_size_bytes
    &&& stride(config) > 0
}

/// The number of chunks that audio of `len` bytes is cut into.
pub open spec fn chunk_count(len: int, config: ChunkConfig) -> int {
    if len <= config.max_size_bytes {
        1
    } else {
        let rest = len - (config.max_size_bytes - overlap_bytes(config));
        1 + (rest + stride(config) - 1) / stride(config)
    }
}

/// Where chunk `i` starts.
pub open spec fn chunk_start(config: ChunkConfig, i: int) -> int {
    i * stride(config)
}

/// Where chunk `i` of audio of `len` bytes ends: a full chunk after its
/// start, or the end of the audio.
pub open spec fn chunk_end(len: int, config: ChunkConfig, i: int) -> int {
    let full = chunk_start(config, i) + config.max_size_bytes;
    if full < len {
        full
    } else {
        len
    }
}

impl ChunkConfig {
    /// OpenAI accepts uploads up to 25 MB: chunks of 24 MiB, overlapping by
    /// two seconds of 16 kHz audio.
    pub fn for_openai() -> (c: Self)
        ensures
            c.max_size_bytes == 24 * 1024 * 1024,
            c.overlap_millis == 2000,
            c.sample_rate == 16000,
            can_split(c),
    {
        let c = ChunkConfig { max_size_bytes: 24 * 1024 * 1024, overlap_millis: 2000, sample_rate: 16000 };
        assert(overlap_bytes(c) == 64000);
        c
    }

    /// Groq accepts uploads up to 19 MB: chunks of 18 MiB, overlapping by
    /// two seconds of 16 kHz audio.
    pub fn for_groq() -> (c: Self)
        ensures
            c.max_size_bytes == 18 * 1024 * 1024,
            c.overlap_millis == 2000,
            c.sample_rate == 16000,
            can_split(c),
    {
        let c = ChunkConfig { max_size_bytes: 18 * 1024 * 1024, overlap_millis: 2000, sample_rate: 16000 };
        assert(overlap_bytes(c) == 64000);
        c
    }

    /// AssemblyAI has no upload limit: audio is never cut.
    pub fn for_assemblyai() -> (c: Self)
        ensures
            c.max_size_bytes == usize::MAX,
            c.overlap_millis == 0,
            c.sample_rate == 16000,
            can_split(c),
    {
        let c = ChunkConfig { max_size_bytes: usize::MAX, overlap_millis: 0, sample_rate: 16000 };
        assert(overlap_bytes(c) == 0);
        c
    }
}

/// Byte `p` of audio of `len` bytes lies in some chunk.
pub open spec fn covered(len: int, config: ChunkConfig, p: int) -> bool {
    exists|i: int|
        0 <= i < chunk_count(len, config) && #[trigger] chunk_start(config, i) <= p < chunk_end(
            len,
            config,
            i,
        )
}

/// The chunks of audio of `len` bytes tile it: each chunk is a non-empty
/// run of at most `max_size_bytes` bytes inside the audio, the first starts
/// at the beginning, the last ends at the end, no chunk starts after the
/// previous one ends, and so every byte of the audio lies in some chunk.
pub proof fn lemma_chunks_cover_audio(len: int, config: ChunkConfig)
    requires
        len > 0,
        len > config.max_size_bytes ==> can_split(config),
    ensures
        chunk_count(len, config) >= 1,
        chunk_start(config, 0) == 0,
        chunk_end(len, config, chunk_count(len, config) - 1) == len,
        forall|i: int|
            0 <= i < chunk_count(len, config) ==> {
                &&& 0 <= #[trigger] chunk_start(config, i) < chunk_end(len, config, i) <= len
                &&& chunk_end(len, config, i) - chunk_start(config, i) <= config.max_size_bytes
            },
        forall|i: int|
            0 <= i < chunk_count(len, config) - 1 ==> #[trigger] chunk_start(config, i + 1)
                <= chunk_end(len, config, i),
        forall|p: int| 0 <= p < len ==> #[trigger] covered(len, config, p),
{
    let max = config.max_size_bytes as int;
    let s = stride(config);
    let n = chunk_count(len, config);
    assert(chunk_start(config, 0) == 0) by (nonlinear_arith)
        requires
            chunk_start(config, 0) == 0 * s,
    ;
    if len <= max {
        assert forall|p: int| 0 <= p < len implies #[trigger] covered(len, config, p) by {
            assert(chunk_start(config, 0) <= p < chunk_end(len, config, 0));
        }
        return;
    }
    let eff = max - overlap_bytes(config);
    let rest = len - eff;
    let q = n - 1;
    assert(s == eff - overlap_bytes(config) / 2);
    assert(0 < s <= eff <= max);
    assert(rest > 0);
    vstd::arithmetic::div_mod::lemma_fundamental_div_mod(rest + s - 1, s);
    let r = (rest + s - 1) % s;
    assert(q == (rest + s - 1) / s);
    assert(rest + s - 1 == s * q + r && 0 <= r < s);
    assert(q * s == s * q) by (nonlinear_arith);
    assert(q * s >= rest);
    assert(q * s <= rest + s - 1);
    assert(q >= 1) by (nonlinear_arith)
        requires
            q * s >= rest,
            rest > 0,
            s > 0,
    ;
    assert forall|i: int| 0 <= i < n implies {
        &&& 0 <= #[trigger] chunk_start(config, i) < chunk_end(len, config, i) <= len
        &&& chunk_end(len, config, i) - chunk_start(config, i) <= max
    } by {
        assert(0 <= i * s <= q * s) by (nonlinear_arith)
            requires
                0 <= i <= q,
                s > 0,
        ;
    }
    assert forall|i: int| 0 <= i < n - 1 implies #[trigger] chunk_start(config, i + 1) <= chunk_end(
        len,
        config,
        i,
    ) by {
        assert((i + 1) * s == i * s + s) by (nonlinear_arith);
        assert(0 <= (i + 1) * s <= q * s) by (nonlinear_arith)
            requires
                0 <= i + 1 <= q,
                s > 0,
        ;
    }
    assert(q * s + max >= len);
    assert forall|p: int| 0 <= p < len implies #[trigger] covered(len, config, p) by {
        vstd::arithmetic::div_mod::lemma_fundamental_div_mod(p, s);
        let d = p / s;
        assert(p == s * d + p % s && 0 <= p % s < s);
        assert(d * s == s * d) by (nonlinear_arith);
        assert(d >= 0) by (nonlinear_arith)
            requires
                p >= 0,
                s > 0,
                p == s * d + p % s,
                p % s < s,
        ;
        if d >= q {
            assert(q * s <= d * s) by (nonlinear_arith)
                requires
                    d >= q,
                    s > 0,
            ;
            assert(chunk_start(config, q) <= p < chunk_end(len, config, q));
        } else {
            assert(chunk_start(config, d) <= p < chunk_end(len, config, d));
        }
    }
}

/// The bytes of `data` from `start` up to `end`.
fn copy_range(data: &[u8], start: usize, end: usize) -> (r: Vec<u8>)
    requires
        start <= end <= data@.len(),
    ensures
        r@ == data@.subrange(start as int, end as int),
{
    let mut r: Vec<u8> = Vec::new();
    let mut i = start;
    while i < end
        invariant
            start <= i <= end <= data@.len(),
            r@ == data@.subrange(start as int, i as int),
        decreases end - i,
    {
        r.push(data[i]);
        assert(data@.subrange(start as int, i + 1) =~= data@.subrange(start as int, i as int).push(data@[i as int]));
        i = i + 1;
    }
    r
}

/// Cuts audio into chunks for upload. Audio that fits in one chunk comes
/// back whole; longer audio is cut into chunks of at most
/// `max_size_bytes`, each starting `stride` bytes after the one before, so
/// that consecutive chunks share their boundary region.
pub fn split_audio(audio_data: &[u8], config: &ChunkConfig) -> (chunks: Vec<AudioChunk>)
    requires
        audio_data@.len() > config.max_size_bytes ==> can_split(*config),
    ensures
        chunks.len() == chunk_count(audio_data@.len() as int, *config),
        forall|i: int|
            0 <= i < chunks.len() ==> #[trigger] chunks[i].data@ == audio_data@.subrange(
                chunk_start(*config, i),
                chunk_end(audio_data@.len() as int, *config, i),
            ),
{
    let total = audio_data.len();
    let max = config.max_size_bytes;
    if total <= max {
        let mut chunks: Vec<AudioChunk> = Vec::new();
        chunks.push(AudioChunk { data: copy_range(audio_data, 0, total) });
        assert(chunk_start(*config, 0) == 0);
        assert(chunks[0].data@ == audio_data@.subrange(chunk_start(*config, 0), chunk_end(total as int, *config, 0)));
        return chunks;
    }
    let bytes_per_second: u32 = config.sample_rate * 2;
    let millis = config.overlap_millis as u64;
    let rate = bytes_per_second as u64;
    assert(millis * rate <= u64::MAX) by (nonlinear_arith)
        requires
            millis <= u32::MAX,
            rate <= u32::MAX,
    ;
    let overlap_wide: u64 = millis * rate / 1000;
    let overlap = overlap_wide as usize;
    let effective = max - overlap;
    let step = effective - overlap / 2;
    assert(overlap == overlap_bytes(*config));
    assert(step == stride(*config));
    let mut chunks: Vec<AudioChunk> = Vec::new();
    let mut start: usize = 0;
    assert(chunks.len() == 0);
    assert(chunks.len() * step == 0) by (nonlinear_arith)
        requires
            chunks.len() == 0,
    ;
    loop
        invariant_except_break
            start < total,
            start == chunks.len() * step,
            forall|j: int| 0 <= j < chunks.len() ==> #[trigger] chunk_start(*config, j) + effective < total,
        invariant
            total == audio_data@.len(),
            max == config.max_size_bytes,
            total > max,
            effective == max - overlap,
            step == effective - overlap / 2,
            step == stride(*config),
            overlap == overlap_bytes(*config),
            0 < step <= effective <= max,
            forall|j: int|
                0 <= j < chunks.len() ==> #[trigger] chunks[j].data@ == audio_data@.subrange(
                    chunk_start(*config, j),
                    chunk_end(total as int, *config, j),
                ),
        ensures
            chunks.len() >= 1,
            chunk_start(*config, chunks.len() - 1) + effective >= total,
            forall|j: int| 0 <= j < chunks.len() - 1 ==> #[trigger] chunk_start(*config, j) + effective < total,
        decreases total - start,
    {
        let end = if max >= total - start { total } else { start + max };
        let ghost i = chunks.len() as int;
        let piece = copy_range(audio_data, start, end);
        chunks.push(AudioChunk { data: piece });
        assert(chunks[i].data@ == audio_data@.subrange(chunk_start(*config, i), chunk_end(total as int, *config, i)));
        if effective >= total - start {
            break;
        }
        assert((i + 1) * step == i * step + step) by (nonlinear_arith);
        start = start + step;
    }
    let ghost n = chunks.len() as int;
    let ghost rest = total - effective;
    proof {
        let q = n - 1;
        if q == 0 {
            assert(q * step == 0) by (nonlinear_arith) requires q == 0;
        }
        assert(q >= 1);
        assert(chunk_start(*config, q - 1) + effective < total);
        assert((q - 1) * step == q * step - step) by (nonlinear_arith);
        assert(q * step <= rest + step - 1 < q * step + step);
        vstd::arithmetic::div_mod::lemma_fundamental_div_mod_converse(rest + step - 1, step as int, q, rest + step - 1 - q * step);
    }
    chunks
}

/// How many trailing words of the previous transcript are compared at most
/// with the leading words of the next one.
pub open spec fn overlap_cap(prev_len: int, curr_len: int) -> int {
    let m = if prev_len < curr_len { prev_len } else { curr_len };
    if m < 20 { m } else { 20 }
}

/// Among the first `j` of the `k` aligned word pairs (the last `k` words of
/// `prev` against the first `k` of `curr`), how many are equal.
pub open spec fn aligned_matches(prev: Seq<Seq<char>>, curr: Seq<Seq<char>>, k: int, j: int) -> int
    decreases j,
{
    if j <= 0 {
        0
    } else {
        aligned_matches(prev, curr, k, j - 1) + if prev[prev.len() - k + j - 1] == curr[j - 1] {
            1int
        } else {
            0int
        }
    }
}

/// An overlap of `k` words is accepted when the last `k` words of the
/// previous transcript equal the first `k` of the current one, or when at
/// least 80% of the aligned pairs agree after lowercasing.
pub open spec fn overlap_accepted(
    prev: Seq<Seq<char>>,
    curr: Seq<Seq<char>>,
    prev_lower: Seq<Seq<char>>,
    curr_lower: Seq<Seq<char>>,
    k: int,
) -> bool {
    ||| prev.subrange(prev.len() - k, prev.len() as int) == curr.subrange(0, k)
    ||| 5 * aligned_matches(prev_lower, curr_lower, k, k) >= 4 * k
}

/// The largest accepted overlap of at least 3 and at most `k` words, or 0.
pub open spec fn best_overlap_upto(
    prev: Seq<Seq<char>>,
    curr: Seq<Seq<char>>,
    prev_lower: Seq<Seq<char>>,
    curr_lower: Seq<Seq<char>>,
    k: int,
) -> int
    decreases k,
{
    if k < 3 {
        0
    } else if overlap_accepted(prev, curr, prev_lower, curr_lower, k) {
        k
    } else {
        best_overlap_upto(prev, curr, prev_lower, curr_lower, k - 1)
    }
}

/// The number of leading words of `curr` that repeat the end of `prev`.
pub open spec fn best_overlap(
    prev: Seq<Seq<char>>,
    curr: Seq<Seq<char>>,
    prev_lower: Seq<Seq<char>>,
    curr_lower: Seq<Seq<char>>,
) -> int {
    best_overlap_upto(prev, curr, prev_lower, curr_lower, overlap_cap(prev.len() as int, curr.len() as int))
}

/// An accepted overlap never exceeds the bound it was searched under.
pub proof fn lemma_best_overlap_bounded(
    prev: Seq<Seq<char>>,
    curr: Seq<Seq<char>>,
    prev_lower: Seq<Seq<char>>,
    curr_lower: Seq<Seq<char>>,
    k: int,
)
    ensures
        0 <= best_overlap_upto(prev, curr, prev_lower, curr_lower, k),
        best_overlap_upto(prev, curr, prev_lower, curr_lower, k) <= if k < 0 { 0 } else { k },
        best_overlap_upto(prev, curr, prev_lower, curr_lower, k) == 0 || best_overlap_upto(
            prev,
            curr,
            prev_lower,
            curr_lower,
            k,
        ) >= 3,
    decreases k,
{
    if k >= 3 && !overlap_accepted(prev, curr, prev_lower, curr_lower, k) {
        lemma_best_overlap_bounded(prev, curr, prev_lower, curr_lower, k - 1);
    }
}

/// The search finds the largest accepted overlap: 0 when no `k` from 3 up
/// to the bound is accepted, otherwise an accepted `k` from 3 up to the bound
/// above which, up to the bound, none is accepted.
pub proof fn lemma_best_overlap_is_largest(
    prev: Seq<Seq<char>>,
    curr: Seq<Seq<char>>,
    prev_lower: Seq<Seq<char>>,
    curr_lower: Seq<Seq<char>>,
    k: int,
)
    ensures
        ({
            let b = best_overlap_upto(prev, curr, prev_lower, curr_lower, k);
            ||| b == 0 && forall|j: int|
                3 <= j <= k ==> !#[trigger] overlap_accepted(prev, curr, prev_lower, curr_lower, j)
            ||| 3 <= b <= k && overlap_accepted(prev, curr, prev_lower, curr_lower, b) && forall|j: int|
                b < j <= k ==> !#[trigger] overlap_accepted(prev, curr, prev_lower, curr_lower, j)
        }),
    decreases k,
{
    if k >= 3 && !overlap_accepted(prev, curr, prev_lower, curr_lower, k) {
        lemma_best_overlap_is_largest(prev, curr, prev_lower, curr_lower, k - 1);
    }
}

/// `current` with the words that repeat the end of `previous` removed.
pub open spec fn without_overlap(previous: Seq<char>, current: Seq<char>) -> Seq<char> {
    let pw = words(previous);
    let cw = words(current);
    if pw.len() == 0 || cw.len() == 0 {
        current
    } else {
        let b = best_overlap(pw, cw, lowercase_all(pw), lowercase_all(cw));
        if b > 0 {
            join_words(cw.skip(b))
        } else {
            current
        }
    }
}

/// Whether the aligned word `j` of an overlap of `k` words agrees.
fn pair_equal(prev: &Vec<String>, curr: &Vec<String>, k: usize, j: usize) -> (r: bool)
    requires
        j < k <= prev.len(),
        k <= curr.len(),
    ensures
        r == (prev.deep_view()[prev.len() - k + j] == curr.deep_view()[j as int]),
{
    prev[prev.len() - k + j] == curr[j]
}

/// Whether the last `k` words of `prev` are exactly the first `k` of `curr`.
fn same_words(prev: &Vec<String>, curr: &Vec<String>, k: usize) -> (r: bool)
    requires
        k <= prev.len(),
        k <= curr.len(),
    ensures
        r == (prev.deep_view().subrange(prev.len() - k, prev.len() as int)
            == curr.deep_view().subrange(0, k as int)),
{
    let ghost a = prev.deep_view().subrange(prev.len() - k, prev.len() as int);
    let ghost b = curr.deep_view().subrange(0, k as int);
    let mut j: usize = 0;
    while j < k
        invariant
            j <= k <= prev.len(),
            k <= curr.len(),
            a == prev.deep_view().subrange(prev.len() - k, prev.len() as int),
            b == curr.deep_view().subrange(0, k as int),
            forall|m: int| 0 <= m < j ==> a[m] == b[m],
        decreases k - j,
    {
        if !pair_equal(prev, curr, k, j) {
            assert(a[j as int] != b[j as int]);
            return false;
        }
        j = j + 1;
    }
    assert(a =~= b);
    true
}

/// How many of the `k` aligned word pairs agree.
fn count_aligned(prev: &Vec<String>, curr: &Vec<String>, k: usize) -> (r: usize)
    requires
        k <= prev.len(),
        k <= curr.len(),
    ensures
        r == aligned_matches(prev.deep_view(), curr.deep_view(), k as int, k as int),
        r <= k,
{
    let mut n: usize = 0;
    let mut j: usize = 0;
    while j < k
        invariant
            j <= k <= prev.len(),
            k <= curr.len(),
            n <= j,
            n == aligned_matches(prev.deep_view(), curr.deep_view(), k as int, j as int),
        decreases k - j,
    {
        if pair_equal(prev, curr, k, j) {
            n = n + 1;
        }
        j = j + 1;
    }
    n
}

/// The number of leading words of the current transcript that repeat the end
/// of the previous one: the largest `k` from 3 up to 20 (and up to both word
/// counts) for which the last `k` previous words equal the first `k` current
/// words, or at least 80% of the aligned pairs agree in their lowercase
/// forms; 0 if there is none.
pub fn overlap_length(
    prev_words: &Vec<String>,
    curr_words: &Vec<String>,
    prev_lower: &Vec<String>,
    curr_lower: &Vec<String>,
) -> (r: usize)
    requires
        prev_lower.len() == prev_words.len(),
        curr_lower.len() == curr_words.len(),
    ensures
        r == best_overlap(
            prev_words.deep_view(),
            curr_words.deep_view(),
            prev_lower.deep_view(),
            curr_lower.deep_view(),
        ),
        r <= prev_words.len(),
        r <= curr_words.len(),
        r <= 20,
{
    let ghost pw = prev_words.deep_view();
    let ghost cw = curr_words.deep_view();
    let ghost pl = prev_lower.deep_view();
    let ghost cl = curr_lower.deep_view();
    let p = prev_words.len();
    let c = curr_words.len();
    let m = if p < c { p } else { c };
    let mut k: usize = if m < 20 { m } else { 20 };
    proof {
        lemma_best_overlap_bounded(pw, cw, pl, cl, k as int);
    }
    while k >= 3
        invariant
            k <= prev_words.len(),
            k <= curr_words.len(),
            k <= 20,
            prev_lower.len() == prev_words.len(),
            curr_lower.len() == curr_words.len(),
            pw == prev_words.deep_view(),
            cw == curr_words.deep_view(),
            pl == prev_lower.deep_view(),
            cl == curr_lower.deep_view(),
            best_overlap(pw, cw, pl, cl) == best_overlap_upto(pw, cw, pl, cl, k as int),
        decreases k,
    {
        if same_words(prev_words, curr_words, k) {
            return k;
        }
        let matching = count_aligned(prev_lower, curr_lower, k);
        if 5 * matching >= 4 * k {
            return k;
        }
        k = k - 1;
    }
    0
}

/// Removes from `current` the leading words that repeat the end of
/// `previous`; when nothing repeats, `current` comes back unchanged.
pub fn remove_overlap(previous: &str, current: &str) -> (r: String)
    ensures
        r@ == without_overlap(previous@, current@),
        words(previous@).len() > 0 && words(current@).len() > 0 ==> forall|i: int|
            0 <= i < words(previous@).len() && all_ascii(#[trigger] words(previous@)[i])
                ==> lowercase(words(previous@)[i]) == words(previous@)[i].map_values(
                |c: char| ascii_lower(c),
            ),
        words(previous@).len() > 0 && words(current@).len() > 0 ==> forall|i: int|
            0 <= i < words(current@).len() && all_ascii(#[trigger] words(current@)[i])
                ==> lowercase(words(current@)[i]) == words(current@)[i].map_values(
                |c: char| ascii_lower(c),
            ),
{
    let prev_words = split_words(previous);
    let curr_words = split_words(current);
    if prev_words.len() == 0 || curr_words.len() == 0 {
        return owned(current);
    }
    let prev_lower = lowercase_words(&prev_words);
    let curr_lower = lowercase_words(&curr_words);
    let best = overlap_length(&prev_words, &curr_words, &prev_lower, &curr_lower);
    if best > 0 {
        join_from(&curr_words, best)
    } else {
        owned(current)
    }
}

/// The transcripts concatenated, each one after the first with its
/// overlap with what came before removed and a space in front.
pub open spec fn stitched(ts: Seq<Seq<char>>) -> Seq<char>
    decreases ts.len(),
{
    if ts.len() == 0 {
        Seq::empty()
    } else if ts.len() == 1 {
        ts[0]
    } else {
        let before = stitched(ts.drop_last());
        before + seq![' '] + without_overlap(before, ts.last())
    }
}

/// The merged transcript: nothing for no transcripts, the transcript itself
/// for one, and otherwise the stitched text with its whitespace collapsed to
/// single spaces between words.
pub open spec fn merged(ts: Seq<Seq<char>>) -> Seq<char> {
    if ts.len() == 0 {
        Seq::empty()
    } else if ts.len() == 1 {
        ts[0]
    } else {
        join_words(words(stitched(ts)))
    }
}

/// Merges the transcripts of consecutive audio chunks into one text,
/// dropping the words that a chunk repeats from the end of the previous one.
pub fn merge_transcripts(transcripts: &[String]) -> (r: String)
    ensures
        r@ == merged(transcripts@.map_values(|t: String| t@)),
{
    let ghost ts = transcripts@.map_values(|t: String| t@);
    if transcripts.len() == 0 {
        return String::new();
    }
    if transcripts.len() == 1 {
        return transcripts[0].clone();
    }
    let mut joined = transcripts[0].clone();
    let mut i: usize = 1;
    assert(ts.take(1) =~= seq![ts[0]]);
    while i < transcripts.len()
        invariant
            1 <= i <= transcripts.len(),
            ts == transcripts@.map_values(|t: String| t@),
            joined@ == stitched(ts.take(i as int)),
        decreases transcripts.len() - i,
    {
        let rest = remove_overlap(joined.as_str(), transcripts[i].as_str());
        joined.append(" ");
        joined.append(rest.as_str());
        proof {
            reveal_strlit(" ");
            assert(ts.take(i + 1).drop_last() =~= ts.take(i as int));
            assert(ts.take(i + 1).last() == transcripts[i as int]@);
        }
        i = i + 1;
    }
    assert(ts.take(transcripts.len() as int) =~= ts);
    let ws = split_words(joined.as_str());
    assert(ws.deep_view().skip(0) =~= ws.deep_view());
    join_from(&ws, 0)
}

/// Merging two or more transcripts yields tidy text: its only whitespace
/// characters are single spaces, each between two non-whitespace
/// characters, so it neither begins nor ends with whitespace.
pub proof fn lemma_merged_is_normalized(ts: Seq<Seq<char>>)
    requires
        ts.len() >= 2,
    ensures
        is_normalized(merged(ts)),
{
    let ws = words(stitched(ts));
    lemma_words_are_words(stitched(ts));
    lemma_join_normalized(ws);
}

/// Removing the overlap only drops leading words: the words of the result
/// are the words of `current` without its first `k`, where `k` is 0 (nothing
/// repeated) or between 3 and 20.
pub proof fn lemma_overlap_removal_keeps_a_suffix(previous: Seq<char>, current: Seq<char>)
    ensures
        exists|k: int|
            (k == 0 || 3 <= k <= 20) && words(#[trigger] without_overlap(previous, current))
                == words(current).skip(k),
{
    let pw = words(previous);
    let cw = words(current);
    let r = without_overlap(previous, current);
    if pw.len() == 0 || cw.len() == 0 {
        assert(cw.skip(0) =~= cw);
        assert(words(r) == words(current).skip(0));
    } else {
        let pl = lowercase_all(pw);
        let cl = lowercase_all(cw);
        let cap = overlap_cap(pw.len() as int, cw.len() as int);
        let b = best_overlap(pw, cw, pl, cl);
        lemma_best_overlap_bounded(pw, cw, pl, cl, cap);
        if b > 0 {
            lemma_words_are_words(current);
            let rest = cw.skip(b);
            assert forall|i: int| 0 <= i < rest.len() implies crate::text::is_word(#[trigger] rest[i]) by {
                assert(rest[i] == cw[i + b]);
            }
            lemma_words_of_join(rest);
            assert(words(r) == words(current).skip(b));
        } else {
            assert(cw.skip(0) =~= cw);
            assert(words(r) == words(current).skip(0));
        }
    }
}

/// What merging keeps: the words of the merged text are the words of all
/// transcripts but the last, merged, followed by the words of the last
/// transcript without the leading words that repeat what came before (none,
/// or between 3 and 20 of them). No other word is dropped or added.
pub proof fn lemma_merged_words(ts: Seq<Seq<char>>)
    requires
        ts.len() >= 2,
    ensures
        words(merged(ts)) == words(stitched(ts)),
        exists|k: int|
            (k == 0 || 3 <= k <= 20) && #[trigger] words(stitched(ts)) == words(
                stitched(ts.drop_last()),
            ) + words(ts.last()).skip(k),
{
    let st = stitched(ts);
    lemma_words_are_words(st);
    lemma_words_of_join(words(st));
    let before = stitched(ts.drop_last());
    let x = without_overlap(before, ts.last());
    assert(st =~= before.push(' ') + x);
    lemma_words_of_spaced_concat(before, x);
    lemma_overlap_removal_keeps_a_suffix(before, ts.last());
    let k = choose|k: int|
        (k == 0 || 3 <= k <= 20) && words(#[trigger] without_overlap(before, ts.last())) == words(
            ts.last(),
        ).skip(k);
    assert(words(st) == words(before) + words(ts.last()).skip(k));
}

/// The number of leading words of `current` that removing its overlap with
/// `previous` drops.
pub open spec fn overlap_dropped(previous: Seq<char>, current: Seq<char>) -> int {
    best_overlap(
        words(previous),
        words(current),
        lowercase_all(words(previous)),
        lowercase_all(words(current)),
    )
}

/// Removing the overlap keeps the words of `current` after the
/// `overlap_dropped` leading ones, whatever the whitespace.
pub proof fn lemma_overlap_removal_words(previous: Seq<char>, current: Seq<char>)
    ensures
        words(without_overlap(previous, current)) == words(current).skip(
            overlap_dropped(previous, current),
        ),
        0 <= overlap_dropped(previous, current) <= words(current).len(),
{
    let pw = words(previous);
    let cw = words(current);
    let pl = lowercase_all(pw);
    let cl = lowercase_all(cw);
    let cap = overlap_cap(pw.len() as int, cw.len() as int);
    let b = best_overlap(pw, cw, pl, cl);
    lemma_best_overlap_bounded(pw, cw, pl, cl, cap);
    if pw.len() == 0 || cw.len() == 0 {
        assert(b == 0);
        assert(cw.skip(0) =~= cw);
    } else if b > 0 {
        lemma_words_are_words(current);
        let rest = cw.skip(b);
        assert forall|i: int| 0 <= i < rest.len() implies crate::text::is_word(#[trigger] rest[i]) by {
            assert(rest[i] == cw[i + b]);
        }
        lemma_words_of_join(rest);
    } else {
        assert(cw.skip(0) =~= cw);
    }
}

/// Each transcript's overlap is looked for against everything merged before
/// it: for two or more transcripts, the words of the merge are the words of
/// the merge of all but the last transcript, followed by the words of the
/// last one without the leading words it repeats of that merged text.
pub proof fn lemma_merge_drops_overlap_with_merged_prefix(ts: Seq<Seq<char>>)
    requires
        ts.len() >= 2,
    ensures
        words(merged(ts)) == words(merged(ts.drop_last())) + words(ts.last()).skip(
            overlap_dropped(merged(ts.drop_last()), ts.last()),
        ),
{
    let pre = ts.drop_last();
    let before = stitched(pre);
    let x = without_overlap(before, ts.last());
    lemma_merged_words(ts);
    assert(stitched(ts) =~= before.push(' ') + x);
    lemma_words_of_spaced_concat(before, x);
    lemma_overlap_removal_words(before, ts.last());
    if pre.len() >= 2 {
        lemma_merged_words(pre);
    }
    assert(words(merged(pre)) == words(before));
}

/// The words that the last `k` words of `prev` and the first `k` words of
/// `curr` have in common position by position, counted over their lowercase
/// forms.
pub open spec fn agreeing_pairs(prev_lower: Seq<Seq<char>>, curr_lower: Seq<Seq<char>>, k: int) -> int {
    agreeing_positions(prev_lower, curr_lower, k, k).len() as int
}

/// Whether position `j` of an overlap of `k` words agrees: word `j` from the
/// start of `curr` equals word `j` of the last `k` words of `prev`.
pub open spec fn agrees_at(prev: Seq<Seq<char>>, curr: Seq<Seq<char>>, k: int) -> spec_fn(int) -> bool {
    |j: int| prev[prev.len() - k + j] == curr[j]
}

/// The positions, among the first `j` of an overlap of `k` words, at which
/// the aligned words agree.
pub open spec fn agreeing_positions(prev: Seq<Seq<char>>, curr: Seq<Seq<char>>, k: int, j: int) -> Seq<int> {
    Seq::new(j as nat, |i: int| i).filter(agrees_at(prev, curr, k))
}

/// The agreement count of an overlap is the number of positions at which
/// the aligned words are equal.
pub proof fn lemma_agreeing_pairs_are_counted(prev: Seq<Seq<char>>, curr: Seq<Seq<char>>, k: int, j: int)
    requires
        0 <= j,
    ensures
        aligned_matches(prev, curr, k, j) == agreeing_positions(prev, curr, k, j).len(),
    decreases j,
{
    reveal(Seq::filter);
    if j > 0 {
        lemma_agreeing_pairs_are_counted(prev, curr, k, j - 1);
        let all = Seq::new(j as nat, |i: int| i);
        assert(all.drop_last() =~= Seq::new((j - 1) as nat, |i: int| i));
        assert(all.last() == j - 1);
    } else {
        assert(Seq::new(0nat, |i: int| i).len() == 0);
    }
}

/// A repeat is never missed: when the last `k` words of `previous` (for a
/// `k` from 3 up to 20 and up to both word counts) are exactly the first `k`
/// words of `current`, or at least 80% of them agree after lowercasing, at
/// least `k` and at most 20 leading words of `current` are dropped.
pub proof fn lemma_repeat_of_k_words_is_removed(previous: Seq<char>, current: Seq<char>, k: int)
    requires
        3 <= k <= 20,
        k <= words(previous).len(),
        k <= words(current).len(),
        words(previous).subrange(words(previous).len() - k, words(previous).len() as int)
            == words(current).subrange(0, k) || 5 * agreeing_pairs(
            lowercase_all(words(previous)),
            lowercase_all(words(current)),
            k,
        ) >= 4 * k,
    ensures
        k <= overlap_dropped(previous, current) <= 20,
        words(without_overlap(previous, current)) == words(current).skip(
            overlap_dropped(previous, current),
        ),
{
    let pw = words(previous);
    let cw = words(current);
    let pl = lowercase_all(pw);
    let cl = lowercase_all(cw);
    let cap = overlap_cap(pw.len() as int, cw.len() as int);
    lemma_agreeing_pairs_are_counted(pl, cl, k, k);
    assert(overlap_accepted(pw, cw, pl, cl, k));
    lemma_best_overlap_is_largest(pw, cw, pl, cl, cap);
    lemma_overlap_removal_words(previous, current);
}

/// Only a repeat is removed: when leading words of `current` are dropped,
/// there are between 3 and 20 of them, no more than either text has, and
/// they are exactly the last words of `previous` or at least 80% of them
/// agree with those after lowercasing.
pub proof fn lemma_only_a_repeat_is_removed(previous: Seq<char>, current: Seq<char>)
    ensures
        ({
            let b = overlap_dropped(previous, current);
            let pw = words(previous);
            let cw = words(current);
            b == 0 || (3 <= b <= 20 && b <= pw.len() && b <= cw.len() && (pw.subrange(
                pw.len() - b,
                pw.len() as int,
            ) == cw.subrange(0, b) || 5 * agreeing_pairs(lowercase_all(pw), lowercase_all(cw), b)
                >= 4 * b))
        }),
{
    let pw = words(previous);
    let cw = words(current);
    let pl = lowercase_all(pw);
    let cl = lowercase_all(cw);
    let cap = overlap_cap(pw.len() as int, cw.len() as int);
    lemma_best_overlap_is_largest(pw, cw, pl, cl, cap);
    let b = overlap_dropped(previous, current);
    if b > 0 {
        lemma_agreeing_pairs_are_counted(pl, cl, b, b);
    }
}

/// The overlap in bytes is the whole number of bytes that `overlap_millis`
/// milliseconds of 16-bit mono audio at `sample_rate` take, and each chunk
/// starts that overlap and half of it again before the previous chunk, run
/// to its full size, ends: consecutive chunks share their boundary region.
pub proof fn lemma_chunks_overlap_by_the_overlap_time(config: ChunkConfig, j: int)
    requires
        j >= 0,
    ensures
        1000 * overlap_bytes(config) <= (config.overlap_millis as int) * 2 * (config.sample_rate as int),
        (config.overlap_millis as int) * 2 * (config.sample_rate as int) < 1000 * (overlap_bytes(config) + 1),
        chunk_start(config, j) + config.max_size_bytes - chunk_start(config, j + 1) == overlap_bytes(config)
            + overlap_bytes(config) / 2,
{
    let t = (config.overlap_millis as int) * (2 * config.sample_rate as int);
    assert(t == (config.overlap_millis as int) * 2 * (config.sample_rate as int)) by (nonlinear_arith)
        requires
            t == (config.overlap_millis as int) * (2 * config.sample_rate as int),
    ;
    vstd::arithmetic::div_mod::lemma_fundamental_div_mod(t, 1000);
    let s = stride(config);
    assert((j + 1) * s == j * s + s) by (nonlinear_arith);
}

} // verus!

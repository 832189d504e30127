//! The transcription services: their names, endpoints and limits, and the
//! bookkeeping of a transcription that runs chunk by chunk.
use vstd::prelude::*;
use vstd::string::*;
use crate::chunking::{
    chunk_count, chunk_end, chunk_start, lemma_chunks_overlap_by_the_overlap_time,
    merge_transcripts, merged, overlap_bytes, split_audio, AudioChunk, ChunkConfig,
};
use crate::text::{owned, str_eq};

verus! {

/// A speech-to-text service.
#[derive(Clone, Copy, Debug, PartialEq, Eq, Structural)]
pub enum TranscriptionProvider {
    OpenAI,
    Groq,
    AssemblyAI,
}

/// The name under which a service is stored and selected.
pub open spec fn provider_name(p: TranscriptionProvider) -> Seq<char> {
    match p {
        TranscriptionProvider::OpenAI => "openai"@,
        TranscriptionProvider::Groq => "groq"@,
        TranscriptionProvider::AssemblyAI => "assemblyai"@,
    }
}

/// The service with the given name, if any.
pub open spec fn provider_named(name: Seq<char>) -> Option<TranscriptionProvider> {
    if name == "openai"@ {
        Some(TranscriptionProvider::OpenAI)
    } else if name == "groq"@ {
        Some(TranscriptionProvider::Groq)
    } else if name == "assemblyai"@ {
        Some(TranscriptionProvider::AssemblyAI)
    } else {
        None
    }
}

/// Reading back the name of a service gives the same service.
pub proof fn lemma_provider_name_round_trip(p: TranscriptionProvider)
    ensures
        provider_named(provider_name(p)) == Some(p),
{
    reveal_strlit("openai");
    reveal_strlit("groq");
    reveal_strlit("assemblyai");
    assert("openai"@.len() == 6 && "groq"@.len() == 4 && "assemblyai"@.len() == 10);
    assert("openai"@ != "groq"@);
    assert("openai"@ != "assemblyai"@);
    assert("groq"@ != "assemblyai"@);
}

/// What became of a transcript that was being polled for.
pub enum PollOutcome {
    /// The transcript is ready, with this text.
    Completed(String),
    /// The service reported that transcription failed.
    Failed,
    /// The transcript is not ready yet: ask again.
    Pending,
}

impl TranscriptionProvider {
    /// The service named `name` ("openai", "groq" or "assemblyai").
    pub fn from_name(name: &str) -> (r: Option<TranscriptionProvider>)
        ensures
            r == provider_named(name@),
    {
        if str_eq(name, "openai") {
            Some(TranscriptionProvider::OpenAI)
        } else if str_eq(name, "groq") {
            Some(TranscriptionProvider::Groq)
        } else if str_eq(name, "assemblyai") {
            Some(TranscriptionProvider::AssemblyAI)
        } else {
            None
        }
    }

    /// The name of the service, as it is stored in settings and sessions.
    pub fn name(&self) -> (r: &'static str)
        ensures
            r@ == provider_name(*self),
    {
        match self {
            TranscriptionProvider::OpenAI => "openai",
            TranscriptionProvider::Groq => "groq",
            TranscriptionProvider::AssemblyAI => "assemblyai",
        }
    }

    /// The name of the service in messages.
    pub fn label(&self) -> (r: &'static str)
        ensures
            r@ == match *self {
                TranscriptionProvider::OpenAI => "OpenAI"@,
                TranscriptionProvider::Groq => "Groq"@,
                TranscriptionProvider::AssemblyAI => "AssemblyAI"@,
            },
    {
        match self {
            TranscriptionProvider::OpenAI => "OpenAI",
            TranscriptionProvider::Groq => "Groq",
            TranscriptionProvider::AssemblyAI => "AssemblyAI",
        }
    }

    /// How audio is cut into uploads for this service.
    pub fn chunk_config(&self) -> (c: ChunkConfig)
        ensures
            c == self.chunk_config_spec(),
            crate::chunking::can_split(c),
    {
        match self {
            TranscriptionProvider::OpenAI => ChunkConfig::for_openai(),
            TranscriptionProvider::Groq => ChunkConfig::for_groq(),
            TranscriptionProvider::AssemblyAI => ChunkConfig::for_assemblyai(),
        }
    }

    /// Where audio is uploaded: the transcription endpoint for OpenAI and
    /// Groq, the upload endpoint for AssemblyAI.
    pub fn upload_url(&self) -> (r: &'static str)
        ensures
            r@ == match *self {
                TranscriptionProvider::OpenAI => "https://api.openai.com/v1/audio/transcriptions"@,
                TranscriptionProvider::Groq => "https://api.groq.com/openai/v1/audio/transcriptions"@,
                TranscriptionProvider::AssemblyAI => "https://api.assemblyai.com/v2/upload"@,
            },
    {
        match self {
            TranscriptionProvider::OpenAI => "https://api.openai.com/v1/audio/transcriptions",
            TranscriptionProvider::Groq => "https://api.groq.com/openai/v1/audio/transcriptions",
            TranscriptionProvider::AssemblyAI => "https://api.assemblyai.com/v2/upload",
        }
    }

    /// The speech model named in the upload form; AssemblyAI takes none.
    pub fn whisper_model(&self) -> (r: Option<&'static str>)
        ensures
            match *self {
                TranscriptionProvider::OpenAI => (r matches Some(m) && m@ == "whisper-1"@),
                TranscriptionProvider::Groq => (r matches Some(m) && m@ == "whisper-large-v3"@),
                TranscriptionProvider::AssemblyAI => r is None,
            },
    {
        match self {
            TranscriptionProvider::OpenAI => Some("whisper-1"),
            TranscriptionProvider::Groq => Some("whisper-large-v3"),
            TranscriptionProvider::AssemblyAI => None,
        }
    }

    /// The chat endpoint that formats transcripts; AssemblyAI has none, so
    /// formatting is not supported there.
    pub fn chat_completions_url(&self) -> (r: Option<&'static str>)
        ensures
            match *self {
                TranscriptionProvider::OpenAI => (r matches Some(u) && u@
                    == "https://api.openai.com/v1/chat/completions"@),
                TranscriptionProvider::Groq => (r matches Some(u) && u@
                    == "https://api.groq.com/openai/v1/chat/completions"@),
                TranscriptionProvider::AssemblyAI => r is None,
            },
    {
        match self {
            TranscriptionProvider::OpenAI => Some("https://api.openai.com/v1/chat/completions"),
            TranscriptionProvider::Groq => Some("https://api.groq.com/openai/v1/chat/completions"),
            TranscriptionProvider::AssemblyAI => None,
        }
    }

    /// A free endpoint that answers with success exactly when the key is
    /// accepted.
    pub fn key_check_url(&self) -> (r: &'static str)
        ensures
            r@ == match *self {
                TranscriptionProvider::OpenAI => "https://api.openai.com/v1/models"@,
                TranscriptionProvider::Groq => "https://api.groq.com/openai/v1/models"@,
                TranscriptionProvider::AssemblyAI => "https://api.assemblyai.com/v2/transcript?limit=1"@,
            },
    {
        match self {
            TranscriptionProvider::OpenAI => "https://api.openai.com/v1/models",
            TranscriptionProvider::Groq => "https://api.groq.com/openai/v1/models",
            TranscriptionProvider::AssemblyAI => "https://api.assemblyai.com/v2/transcript?limit=1",
        }
    }

    /// The header that carries the API key: a bearer token for OpenAI and
    /// Groq, the bare key for AssemblyAI.
    pub fn auth_header(&self, api_key: &str) -> (r: (&'static str, String))
        ensures
            match *self {
                TranscriptionProvider::AssemblyAI => r.0@ == "authorization"@ && r.1@ == api_key@,
                _ => r.0@ == "Authorization"@ && r.1@ == "Bearer "@ + api_key@,
            },
    {
        match self {
            TranscriptionProvider::AssemblyAI => ("authorization", owned(api_key)),
            _ => {
                let mut v = owned("Bearer ");
                v.append(api_key);
                ("Authorization", v)
            },
        }
    }
}

/// Where the state of the AssemblyAI transcript `id` is read.
pub fn assemblyai_transcript_url(id: &str) -> (r: String)
    ensures
        r@ == "https://api.assemblyai.com/v2/transcript/"@ + id@,
{
    let mut r = owned("https://api.assemblyai.com/v2/transcript/");
    r.append(id);
    r
}

/// The meaning of a polled AssemblyAI transcript state: "completed" gives
/// its text (empty when there is none), "error" a failure, anything else
/// means waiting and asking again.
pub fn poll_outcome(status: &str, text: Option<String>) -> (r: PollOutcome)
    ensures
        status@ == "completed"@ ==> (r matches PollOutcome::Completed(t) && t@ == match text {
            Some(x) => x@,
            None => Seq::<char>::empty(),
        }),
        status@ != "completed"@ && status@ == "error"@ ==> r is Failed,
        status@ != "completed"@ && status@ != "error"@ ==> r is Pending,
{
    if str_eq(status, "completed") {
        match text {
            Some(t) => PollOutcome::Completed(t),
            None => PollOutcome::Completed(String::new()),
        }
    } else if str_eq(status, "error") {
        PollOutcome::Failed
    } else {
        PollOutcome::Pending
    }
}

/// The text of the first choice of a chat reply, or nothing when the reply
/// has no choices.
pub fn first_choice_content(contents: Vec<String>) -> (r: String)
    ensures
        contents.len() > 0 ==> r@ == contents[0]@,
        contents.len() == 0 ==> r@ == Seq::<char>::empty(),
{
    if contents.len() > 0 {
        contents[0].clone()
    } else {
        String::new()
    }
}

/// A transcription in progress: the chunks that the audio was cut into and
/// the transcripts received for the first of them.
pub struct TranscriptionJob {
    chunks: Vec<AudioChunk>,
    transcripts: Vec<String>,
}

impl TranscriptionJob {
    #[verifier::type_invariant]
    spec fn well_formed(self) -> bool {
        self.transcripts.len() <= self.chunks.len()
    }

    /// The bytes of each chunk to transcribe, in order.
    pub closed spec fn chunk_data(self) -> Seq<Seq<u8>> {
        self.chunks@.map_values(|c: AudioChunk| c.data@)
    }

    /// The transcripts received so far, in chunk order.
    pub closed spec fn received(self) -> Seq<Seq<char>> {
        self.transcripts@.map_values(|t: String| t@)
    }

    /// Starts transcribing `audio_data` for `provider`: audio that fits in
    /// one upload is one chunk; longer audio is cut as `split_audio` cuts it.
    pub fn new(audio_data: Vec<u8>, provider: &TranscriptionProvider) -> (job: Self)
        ensures
            job.received() == Seq::<Seq<char>>::empty(),
            ({
                let config = provider.chunk_config_spec();
                &&& job.chunk_data().len() == chunk_count(audio_data@.len() as int, config)
                &&& forall|i: int|
                    0 <= i < job.chunk_data().len() ==> #[trigger] job.chunk_data()[i]
                        == audio_data@.subrange(
                        chunk_start(config, i),
                        chunk_end(audio_data@.len() as int, config, i),
                    )
            }),
    {
        let config = provider.chunk_config();
        let chunks = split_audio(audio_data.as_slice(), &config);
        let job = TranscriptionJob { chunks, transcripts: Vec::new() };
        assert forall|i: int| 0 <= i < job.chunk_data().len() implies #[trigger] job.chunk_data()[i]
            == audio_data@.subrange(
            chunk_start(config, i),
            chunk_end(audio_data@.len() as int, config, i),
        ) by {
            assert(job.chunk_data()[i] == chunks[i].data@);
        }
        job
    }

    /// Whether every chunk has its transcript.
    pub fn is_done(&self) -> (r: bool)
        ensures
            r == (self.received().len() == self.chunk_data().len()),
    {
        proof {
            use_type_invariant(self);
        }
        self.transcripts.len() == self.chunks.len()
    }

    /// The next chunk to transcribe, or nothing once all are done.
    pub fn next_chunk(&self) -> (r: Option<&Vec<u8>>)
        ensures
            self.received().len() < self.chunk_data().len() ==> (r matches Some(c) && c@
                == self.chunk_data()[self.received().len() as int]),
            self.received().len() >= self.chunk_data().len() ==> r is None,
    {
        proof {
            use_type_invariant(self);
        }
        let i = self.transcripts.len();
        if i < self.chunks.len() {
            Some(&self.chunks[i].data)
        } else {
            None
        }
    }

    /// Records the transcript of the next chunk.
    pub fn record(&mut self, transcript: String)
        requires
            old(self).received().len() < old(self).chunk_data().len(),
        ensures
            final(self).chunk_data() == old(self).chunk_data(),
            final(self).received() == old(self).received().push(transcript@),
    {
        proof {
            use_type_invariant(&*self);
        }
        let ghost t = transcript@;
        let mut received: Vec<String> = Vec::new();
        std::mem::swap(&mut received, &mut self.transcripts);
        received.push(transcript);
        self.transcripts = received;
        assert(self.received() =~= old(self).received().push(t));
    }

    /// The transcript of the whole audio: the chunk transcripts merged.
    pub fn transcript(&self) -> (r: String)
        requires
            self.received().len() == self.chunk_data().len(),
        ensures
            r@ == merged(self.received()),
    {
        merge_transcripts(self.transcripts.as_slice())
    }
}

impl TranscriptionProvider {
    /// The configuration that `chunk_config` returns.
    pub open spec fn chunk_config_spec(&self) -> ChunkConfig {
        match *self {
            TranscriptionProvider::OpenAI => ChunkConfig {
                max_size_bytes: 25165824usize,
                overlap_millis: 2000,
                sample_rate: 16000,
            },
            TranscriptionProvider::Groq => ChunkConfig {
                max_size_bytes: 18874368usize,
                overlap_millis: 2000,
                sample_rate: 16000,
            },
            TranscriptionProvider::AssemblyAI => ChunkConfig {
                max_size_bytes: usize::MAX,
                overlap_millis: 0,
                sample_rate: 16000,
            },
        }
    }
}

/// Each service cuts audio as its limits ask. OpenAI and Groq take chunks
/// of 24 MiB and 18 MiB that overlap by two seconds of 16 kHz 16-bit mono
/// audio (64000 bytes), so each chunk starts 96000 bytes (the overlap and
/// half of it again) before the previous one, run to its full size, ends;
/// AssemblyAI takes any audio whole, in one chunk.
pub proof fn lemma_provider_chunking(p: TranscriptionProvider, len: int, j: int)
    requires
        0 < len <= usize::MAX,
        j >= 0,
    ensures
        ({
            let c = p.chunk_config_spec();
            match p {
                TranscriptionProvider::OpenAI => {
                    &&& c.max_size_bytes == 24 * 1024 * 1024
                    &&& overlap_bytes(c) == 2 * (2 * 16000)
                    &&& chunk_start(c, j + 1) == chunk_start(c, j) + 24 * 1024 * 1024 - 96000
                },
                TranscriptionProvider::Groq => {
                    &&& c.max_size_bytes == 18 * 1024 * 1024
                    &&& overlap_bytes(c) == 2 * (2 * 16000)
                    &&& chunk_start(c, j + 1) == chunk_start(c, j) + 18 * 1024 * 1024 - 96000
                },
                TranscriptionProvider::AssemblyAI => chunk_count(len, c) == 1,
            }
        }),
{
    let c = p.chunk_config_spec();
    lemma_chunks_overlap_by_the_overlap_time(c, j);
}

} // verus!

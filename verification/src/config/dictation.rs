//! Speech dictation settings.
use vstd::prelude::*;

use crate::config::pick;
use crate::config::MergeWith;

verus! {

/// Speech dictation settings.
#[derive(Debug, Clone, PartialEq, Eq)]
pub struct Dictation {
    /// The whisper.cpp server `/inference` endpoint audio is posted to.
    pub whisper_url: String,
    /// Language hint passed to the server.
    pub language: String,
    /// Smallest amount of audio worth sending as one utterance. Smaller is
    /// snappier but gives the model less context to work with.
    pub chunk_ms: u32,
    /// Forced cut for someone who talks straight through without pausing, so
    /// the transcript keeps moving.
    pub max_chunk_ms: u32,
    /// How much trailing quiet marks a natural cut once `chunk_ms` has piled
    /// up. Cutting on silence instead of on a clock keeps words whole.
    pub silence_ms: u32,
    /// How much voiced audio an utterance needs before it is worth a request.
    /// Filters out clicks, keystrokes and chair creaks.
    pub min_speech_ms: u32,
    /// Floor for the speech threshold (0-32767). The live threshold floats at
    /// three times the measured noise floor; this only stops it collapsing to
    /// nothing in a silent room.
    pub min_speech_rms: u32,
    /// How much new audio accumulates before the utterance still being spoken
    /// is re-decoded for a live preview. Every preview is another request, so
    /// this trades server load for how quickly words appear. 0 disables it.
    pub partial_ms: u32,
    /// Deadline for one request to the server.
    pub request_timeout_ms: u32,
}

impl Dictation {
    /// The settings in force where nothing is configured.
    pub open spec fn is_default(&self) -> bool {
        &&& self.whisper_url@ == "http://127.0.0.1:9876/inference"@
        &&& self.language@ == "en"@
        &&& self.chunk_ms == 3000
        &&& self.max_chunk_ms == 10000
        &&& self.silence_ms == 400
        &&& self.min_speech_ms == 200
        &&& self.min_speech_rms == 120
        &&& self.partial_ms == 700
        &&& self.request_timeout_ms == 30000
    }

    /// The settings with a section laid over them: what the section names, and
    /// the rest as it was.
    pub open spec fn merged(&self, part: &DictationPart) -> Self {
        Dictation {
            whisper_url: pick(self.whisper_url, part.whisper_url),
            language: pick(self.language, part.language),
            chunk_ms: pick(self.chunk_ms, part.chunk_ms),
            max_chunk_ms: pick(self.max_chunk_ms, part.max_chunk_ms),
            silence_ms: pick(self.silence_ms, part.silence_ms),
            min_speech_ms: pick(self.min_speech_ms, part.min_speech_ms),
            min_speech_rms: pick(self.min_speech_rms, part.min_speech_rms),
            partial_ms: pick(self.partial_ms, part.partial_ms),
            request_timeout_ms: pick(self.request_timeout_ms, part.request_timeout_ms),
        }
    }

    /// An equal copy of the settings.
    pub fn duplicate(&self) -> (copy: Self)
        ensures
            copy == *self,
    {
        Dictation {
            whisper_url: self.whisper_url.clone(),
            language: self.language.clone(),
            chunk_ms: self.chunk_ms,
            max_chunk_ms: self.max_chunk_ms,
            silence_ms: self.silence_ms,
            min_speech_ms: self.min_speech_ms,
            min_speech_rms: self.min_speech_rms,
            partial_ms: self.partial_ms,
            request_timeout_ms: self.request_timeout_ms,
        }
    }
}

impl Default for Dictation {
    fn default() -> (settings: Self)
        ensures
            settings.is_default(),
    {
        Dictation {
            whisper_url: "http://127.0.0.1:9876/inference".to_owned(),
            language: "en".to_owned(),
            chunk_ms: 3000,
            max_chunk_ms: 10000,
            silence_ms: 400,
            min_speech_ms: 200,
            min_speech_rms: 120,
            partial_ms: 700,
            request_timeout_ms: 30000,
        }
    }
}

/// One `dictation` section of a configuration: what it names, and nothing else.
#[derive(Debug, Clone, PartialEq, Eq)]
pub struct DictationPart {
    pub whisper_url: Option<String>,
    pub language: Option<String>,
    pub chunk_ms: Option<u32>,
    pub max_chunk_ms: Option<u32>,
    pub silence_ms: Option<u32>,
    pub min_speech_ms: Option<u32>,
    pub min_speech_rms: Option<u32>,
    pub partial_ms: Option<u32>,
    pub request_timeout_ms: Option<u32>,
}

impl DictationPart {
    /// Whether the section names nothing.
    pub open spec fn is_empty(&self) -> bool {
        &&& self.whisper_url is None
        &&& self.language is None
        &&& self.chunk_ms is None
        &&& self.max_chunk_ms is None
        &&& self.silence_ms is None
        &&& self.min_speech_ms is None
        &&& self.min_speech_rms is None
        &&& self.partial_ms is None
        &&& self.request_timeout_ms is None
    }
}

impl Default for DictationPart {
    fn default() -> (part: Self)
        ensures
            part.is_empty(),
    {
        DictationPart {
            whisper_url: None,
            language: None,
            chunk_ms: None,
            max_chunk_ms: None,
            silence_ms: None,
            min_speech_ms: None,
            min_speech_rms: None,
            partial_ms: None,
            request_timeout_ms: None,
        }
    }
}

impl MergeWith<DictationPart> for Dictation {
    open spec fn merges(&self, part: &DictationPart, after: &Self) -> bool {
        *after == self.merged(part)
    }

    fn merge_with(&mut self, part: &DictationPart) {
        if let Some(url) = &part.whisper_url {
            self.whisper_url = url.clone();
        }
        if let Some(language) = &part.language {
            self.language = language.clone();
        }
        if let Some(ms) = part.chunk_ms {
            self.chunk_ms = ms;
        }
        if let Some(ms) = part.max_chunk_ms {
            self.max_chunk_ms = ms;
        }
        if let Some(ms) = part.silence_ms {
            self.silence_ms = ms;
        }
        if let Some(ms) = part.min_speech_ms {
            self.min_speech_ms = ms;
        }
        if let Some(level) = part.min_speech_rms {
            self.min_speech_rms = level;
        }
        if let Some(ms) = part.partial_ms {
            self.partial_ms = ms;
        }
        if let Some(ms) = part.request_timeout_ms {
            self.request_timeout_ms = ms;
        }
    }
}

/// Two sections as one: what the later one names, and what only the earlier one
/// does.
pub open spec fn combined(earlier: &DictationPart, later: &DictationPart) -> DictationPart {
    DictationPart {
        whisper_url: pick(earlier.whisper_url, named(later.whisper_url)),
        language: pick(earlier.language, named(later.language)),
        chunk_ms: pick(earlier.chunk_ms, named(later.chunk_ms)),
        max_chunk_ms: pick(earlier.max_chunk_ms, named(later.max_chunk_ms)),
        silence_ms: pick(earlier.silence_ms, named(later.silence_ms)),
        min_speech_ms: pick(earlier.min_speech_ms, named(later.min_speech_ms)),
        min_speech_rms: pick(earlier.min_speech_rms, named(later.min_speech_rms)),
        partial_ms: pick(earlier.partial_ms, named(later.partial_ms)),
        request_timeout_ms: pick(earlier.request_timeout_ms, named(later.request_timeout_ms)),
    }
}

/// A setting of a section, as a replacement for that of another one.
pub open spec fn named<T>(setting: Option<T>) -> Option<Option<T>> {
    if setting is Some {
        Some(setting)
    } else {
        None
    }
}

/// Anything not named keeps its value: a section that names nothing changes
/// nothing.
pub proof fn law_an_empty_section_changes_nothing(settings: Dictation, part: DictationPart)
    requires
        part.is_empty(),
    ensures
        settings.merged(&part) == settings,
{
}

/// The later of two sections wins: laying one over the other over the settings is
/// laying both over them at once, with the later one's word where both have one.
pub proof fn law_the_later_section_wins(
    settings: Dictation,
    earlier: DictationPart,
    later: DictationPart,
)
    ensures
        settings.merged(&earlier).merged(&later) == settings.merged(&combined(&earlier, &later)),
{
}

/// Laying a section over the settings again changes nothing.
pub proof fn law_merging_twice_is_merging_once(settings: Dictation, part: DictationPart)
    ensures
        settings.merged(&part).merged(&part) == settings.merged(&part),
{
}

} // verus!

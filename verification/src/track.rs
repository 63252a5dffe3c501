//! Track records: what is extracted from one file and kept in the index.

use vstd::prelude::*;
use crate::digest::{content_digest, digest_hex, DIGEST_BYTES};
use crate::filter::{clone_texts, DatabaseMeta, MetaView};

verus! {

/// One sample as the analysis of a module reports it.
pub struct AnalysedSample {
    /// Position of the sample within its track.
    pub sample_id: u32,
    /// The raw payload, if the sample has one.
    pub data: Option<Vec<u8>>,
    /// The sample's descriptive text.
    pub text: String,
    pub length_bytes: u32,
    pub length: u32,
}

/// What the analysis of a module file reports.
pub struct Analysis {
    /// Hash of the pattern data; `0` when there is none.
    pub hash: u64,
    pub samples: Vec<AnalysedSample>,
    pub instrument_names: Vec<String>,
    pub channel_count: u32,
}

/// One sample of an extracted track.
pub struct SampleInfo {
    pub sample_id: u32,
    /// Digest of the payload; `None` when the sample has no payload.
    pub sha256_hash: Option<String>,
    pub text: String,
    pub length_bytes: u64,
    pub length: u64,
}

/// The identity signals of one file.
pub struct TrackInfo {
    /// Pattern digest; `0` means that none is available.
    pub pattern_hash: u64,
    /// Digest of the whole file.
    pub sha256_hash: String,
    pub filename: String,
    pub samples: Vec<SampleInfo>,
    pub instrument_names: Vec<String>,
}

pub ghost struct AnalysedSampleView {
    pub sample_id: u32,
    pub data: Option<Seq<u8>>,
    pub text: Seq<char>,
    pub length_bytes: u32,
    pub length: u32,
}

pub ghost struct AnalysisView {
    pub hash: u64,
    pub samples: Seq<AnalysedSampleView>,
    pub instrument_names: Seq<Seq<char>>,
    pub channel_count: u32,
}

pub ghost struct SampleView {
    pub sample_id: u32,
    pub sha256_hash: Option<Seq<char>>,
    pub text: Seq<char>,
    pub length_bytes: u64,
    pub length: u64,
}

pub ghost struct TrackView {
    pub pattern_hash: u64,
    pub sha256_hash: Seq<char>,
    pub filename: Seq<char>,
    pub samples: Seq<SampleView>,
    pub instrument_names: Seq<Seq<char>>,
}

impl View for AnalysedSample {
    type V = AnalysedSampleView;

    open spec fn view(&self) -> AnalysedSampleView {
        AnalysedSampleView {
            sample_id: self.sample_id,
            data: match self.data {
                Some(d) => Some(d@),
                None => None,
            },
            text: self.text@,
            length_bytes: self.length_bytes,
            length: self.length,
        }
    }
}

impl DeepView for AnalysedSample {
    type V = AnalysedSampleView;

    open spec fn deep_view(&self) -> AnalysedSampleView {
        self@
    }
}

impl View for Analysis {
    type V = AnalysisView;

    open spec fn view(&self) -> AnalysisView {
        AnalysisView {
            hash: self.hash,
            samples: self.samples.deep_view(),
            instrument_names: self.instrument_names.deep_view(),
            channel_count: self.channel_count,
        }
    }
}

impl View for SampleInfo {
    type V = SampleView;

    open spec fn view(&self) -> SampleView {
        SampleView {
            sample_id: self.sample_id,
            sha256_hash: match self.sha256_hash {
                Some(h) => Some(h@),
                None => None,
            },
            text: self.text@,
            length_bytes: self.length_bytes,
            length: self.length,
        }
    }
}

impl DeepView for SampleInfo {
    type V = SampleView;

    open spec fn deep_view(&self) -> SampleView {
        self@
    }
}

impl View for TrackInfo {
    type V = TrackView;

    open spec fn view(&self) -> TrackView {
        TrackView {
            pattern_hash: self.pattern_hash,
            sha256_hash: self.sha256_hash@,
            filename: self.filename@,
            samples: self.samples.deep_view(),
            instrument_names: self.instrument_names.deep_view(),
        }
    }
}

impl DeepView for TrackInfo {
    type V = TrackView;

    open spec fn deep_view(&self) -> TrackView {
        self@
    }
}

/// The digest of a sample payload: absent when there is no payload or the
/// payload is empty.
pub open spec fn payload_digest(data: Option<Seq<u8>>) -> Option<Seq<char>> {
    match data {
        Some(d) => if d.len() > 0 {
            Some(digest_hex(d))
        } else {
            None
        },
        None => None,
    }
}

/// The record of one analysed sample.
pub open spec fn sample_of(a: AnalysedSampleView) -> SampleView {
    SampleView {
        sample_id: a.sample_id,
        sha256_hash: payload_digest(a.data),
        text: a.text,
        length_bytes: a.length_bytes as u64,
        length: a.length as u64,
    }
}

/// The record of a file: its path, the digest of its bytes, and what the
/// analysis reported, the pattern digest as it was reported. Without an
/// analysis only the whole-file digest is populated.
pub open spec fn track_of(filename: Seq<char>, file_data: Seq<u8>, analysis: Option<AnalysisView>) -> TrackView {
    match analysis {
        Some(a) => TrackView {
            pattern_hash: a.hash,
            sha256_hash: digest_hex(file_data),
            filename,
            samples: a.samples.map_values(|s: AnalysedSampleView| sample_of(s)),
            instrument_names: a.instrument_names,
        },
        None => TrackView {
            pattern_hash: 0,
            sha256_hash: digest_hex(file_data),
            filename,
            samples: Seq::empty(),
            instrument_names: Seq::empty(),
        },
    }
}

/// What a query sees of an indexed track.
pub open spec fn meta_of(t: TrackView) -> MetaView {
    MetaView { filename: t.filename, samples: t.samples.map_values(|s: SampleView| s.text) }
}

fn sample_digest(data: &Option<Vec<u8>>) -> (r: Option<String>)
    ensures
        (match r {
            Some(h) => Some(h@),
            None => None,
        }) == payload_digest(
            match *data {
                Some(d) => Some(d@),
                None => None,
            },
        ),
{
    match data {
        Some(d) => if d.len() > 0 {
            Some(content_digest(d.as_slice()))
        } else {
            None
        },
        None => None,
    }
}

/// Builds the record of one file from its path, its bytes and the outcome
/// of the analysis (`None` when the format is not supported).
pub fn get_track_info(filename: &str, file_data: &[u8], analysis: Option<&Analysis>) -> (r:
    TrackInfo)
    ensures
        r@ == track_of(
            filename@,
            file_data@,
            match analysis {
                Some(a) => Some(a@),
                None => None,
            },
        ),
        r.sha256_hash@.len() == 2 * DIGEST_BYTES,
{
    let sha256_hash = content_digest(file_data);
    let mut samples: Vec<SampleInfo> = Vec::new();
    match analysis {
        Some(a) => {
            let mut i: usize = 0;
            while i < a.samples.len()
                invariant
                    i <= a.samples.len(),
                    samples.len() == i,
                    forall|k: int| 0 <= k < i ==> samples[k]@ == sample_of(a.samples[k]@),
                decreases a.samples.len() - i,
            {
                let s = &a.samples[i];
                samples.push(
                    SampleInfo {
                        sample_id: s.sample_id,
                        sha256_hash: sample_digest(&s.data),
                        text: s.text.clone(),
                        length_bytes: s.length_bytes as u64,
                        length: s.length as u64,
                    },
                );
                i += 1;
            }
            let r = TrackInfo {
                pattern_hash: a.hash,
                sha256_hash,
                filename: filename.to_owned(),
                samples,
                instrument_names: clone_texts(&a.instrument_names),
            };
            assert(r@.samples =~= a@.samples.map_values(|s: AnalysedSampleView| sample_of(s)));
            r
        },
        None => {
            let r = TrackInfo {
                pattern_hash: 0,
                sha256_hash,
                filename: filename.to_owned(),
                samples,
                instrument_names: Vec::new(),
            };
            assert(r@.samples =~= Seq::<SampleView>::empty());
            assert(r@.instrument_names =~= Seq::<Seq<char>>::empty());
            r
        },
    }
}

impl TrackInfo {
    /// The path and sample texts of this track.
    pub fn to_meta(&self) -> (r: DatabaseMeta)
        ensures
            r@ == meta_of(self@),
    {
        let mut texts: Vec<String> = Vec::new();
        let mut i: usize = 0;
        while i < self.samples.len()
            invariant
                i <= self.samples.len(),
                texts.len() == i,
                forall|k: int| 0 <= k < i ==> texts[k]@ == self.samples[k].text@,
            decreases self.samples.len() - i,
        {
            texts.push(self.samples[i].text.clone());
            i += 1;
        }
        let r = DatabaseMeta { filename: self.filename.clone(), samples: texts };
        assert(r@.samples =~= meta_of(self@).samples);
        r
    }
}

/// Identical bytes give the identical whole-file digest, whatever the path
/// and whatever the analysis reports.
pub proof fn lemma_digest_depends_on_bytes_only(
    path_a: Seq<char>,
    path_b: Seq<char>,
    bytes: Seq<u8>,
    analysis_a: Option<AnalysisView>,
    analysis_b: Option<AnalysisView>,
)
    ensures
        track_of(path_a, bytes, analysis_a).sha256_hash == track_of(
            path_b,
            bytes,
            analysis_b,
        ).sha256_hash,
{
}

/// A file that cannot be analysed still has a record: its whole-file digest
/// is populated and its pattern digest is the sentinel.
pub proof fn lemma_unsupported_format_record(path: Seq<char>, bytes: Seq<u8>)
    ensures
        track_of(path, bytes, None).sha256_hash == digest_hex(bytes),
        track_of(path, bytes, None).pattern_hash == 0,
        track_of(path, bytes, None).samples.len() == 0,
{
}

} // verus!

//! What a finished decode reports: its warnings, its status, and whether a
//! strict scan accepts it.
use vstd::prelude::*;
use vstd::string::StringExecFns;
use crate::decode::DecodeProgress;
use crate::error::ScanError;
use crate::silence::{silence_spans, span_view, SilenceTracker};
use crate::text::{decimal, decimal_text, join_with, joined};

verus! {

/// A decode that recovers at least this percentage of the container's declared
/// frame count is treated as complete. The 1% slack absorbs containers that
/// over-declare their frame count (encoder padding, VBR estimates).
pub const MIN_DECODED_PERCENT: u64 = 99;

/// Decode outcome of an analysis.
#[derive(Clone, Copy, Debug, PartialEq, Eq, Structural)]
pub enum Status {
    /// A clean decode.
    Clean,
    /// The decode completed but with diagnostics (see the warnings).
    Partial,
}

impl Status {
    /// The status as the JSON output spells it: `"ok"` or `"partial"`.
    pub fn as_str(&self) -> (s: &'static str)
        ensures
            s@ == (match self {
                Status::Clean => "ok"@,
                Status::Partial => "partial"@,
            }),
    {
        match self {
            Status::Clean => "ok",
            Status::Partial => "partial",
        }
    }
}

/// A diagnostic about an incomplete decode.
#[derive(Clone, Copy, Debug, PartialEq, Eq, Structural)]
pub enum DecodeWarning {
    /// Corrupt packets were skipped.
    SkippedPackets { count: u32 },
    /// The stream ended early on an error.
    EarlyEnd,
    /// The decode deadline passed.
    TimedOut,
    /// The stream changed from the header's layout to another one mid-file.
    LayoutChanged { channels: u32, sample_rate: u32, new_channels: u32, new_sample_rate: u32 },
    /// Materially fewer frames were decoded than the container declared.
    Truncated { decoded_frames: u64, declared_frames: u64 },
}

/// `declared * MIN_DECODED_PERCENT`, held at `u64::MAX` when it overflows.
pub open spec fn saturated_share(declared: u64) -> int {
    if declared * MIN_DECODED_PERCENT > u64::MAX {
        u64::MAX as int
    } else {
        declared * MIN_DECODED_PERCENT
    }
}

/// The decode is truncated: the container declared a positive frame count and
/// fewer than 99% of it (in integer arithmetic) were decoded.
pub open spec fn is_truncated(decoded: u64, declared: Option<u64>) -> bool {
    match declared {
        Some(d) => d > 0 && decoded < saturated_share(d) / 100,
        None => false,
    }
}

pub open spec fn warning_if(cond: bool, w: DecodeWarning) -> Seq<DecodeWarning> {
    if cond {
        seq![w]
    } else {
        Seq::empty()
    }
}

/// The warnings of a finished decode that yielded `decoded` frames, in this
/// order: skipped packets, early end, timeout, layout change, truncation
/// against `declared` frames.
pub open spec fn warnings_of(p: DecodeProgress, decoded: u64, declared: Option<u64>) -> Seq<DecodeWarning> {
    warning_if(p.skipped_packets > 0, DecodeWarning::SkippedPackets { count: p.skipped_packets })
        + warning_if(p.early_end, DecodeWarning::EarlyEnd)
        + warning_if(p.timed_out, DecodeWarning::TimedOut)
        + match p.layout_changed {
        Some((a, r)) => seq![
            DecodeWarning::LayoutChanged {
                channels: p.channels,
                sample_rate: p.sample_rate,
                new_channels: a,
                new_sample_rate: r,
            },
        ],
        None => Seq::empty(),
    } + warning_if(
        is_truncated(decoded, declared),
        DecodeWarning::Truncated {
            decoded_frames: decoded,
            declared_frames: match declared {
                Some(d) => d,
                None => 0,
            },
        },
    )
}

/// A finished decode carries no warning, and so is reported `Clean`, exactly
/// when it skipped no corrupt packet, did not end early on a stream error, did
/// not run past its deadline, kept the header's layout and decoded at least 99%
/// of the frames the container declared.
pub proof fn lemma_no_warning_iff_complete(p: DecodeProgress, decoded: u64, declared: Option<u64>)
    ensures
        warnings_of(p, decoded, declared).len() == 0 <==> (p.skipped_packets == 0 && !p.early_end
            && !p.timed_out && p.layout_changed is None && !is_truncated(decoded, declared)),
{
    let layout: Seq<DecodeWarning> = match p.layout_changed {
        Some((a, r)) => seq![
            DecodeWarning::LayoutChanged {
                channels: p.channels,
                sample_rate: p.sample_rate,
                new_channels: a,
                new_sample_rate: r,
            },
        ],
        None => Seq::empty(),
    };
    assert(layout.len() == 0 <==> p.layout_changed is None);
}

/// The 99% rule: with a positive declared count `d` whose product with
/// `MIN_DECODED_PERCENT` fits in 64 bits, a decode is truncated exactly when it
/// yielded fewer than `floor(99 d / 100)` frames; a decode that yields at least
/// the declared count is never truncated; nothing is truncated without a
/// positive declared count.
pub proof fn lemma_truncation_rule(decoded: u64, declared: Option<u64>)
    ensures
        match declared {
            Some(d) => d > 0 && d * 99 <= u64::MAX ==> (is_truncated(decoded, declared) <==> decoded
                < (d * 99) / 100),
            None => true,
        },
        declared matches Some(d) && decoded >= d ==> !is_truncated(decoded, declared),
        (declared is None || declared == Some(0u64)) ==> !is_truncated(decoded, declared),
{
    match declared {
        Some(d) => {
            assert(saturated_share(d) <= d * 99);
            assert(saturated_share(d) / 100 <= d) by (nonlinear_arith)
                requires
                    saturated_share(d) <= d * 99,
                    0 <= saturated_share(d),
            ;
        },
        None => {},
    }
}

/// Whether `decoded` frames fall short of the `declared` count.
pub fn truncated(decoded: u64, declared: Option<u64>) -> (t: bool)
    ensures
        t == is_truncated(decoded, declared),
        match declared {
            Some(d) => d > 0 && d * 99 <= u64::MAX ==> (t <==> decoded < (d * 99) / 100),
            None => true,
        },
        declared matches Some(d) && decoded >= d ==> !t,
        declared is None ==> !t,
{
    proof {
        lemma_truncation_rule(decoded, declared);
    }
    match declared {
        Some(d) => {
            if d == 0 {
                false
            } else {
                let share = match d.checked_mul(MIN_DECODED_PERCENT) {
                    Some(p) => p,
                    None => u64::MAX,
                };
                decoded < share / 100
            }
        },
        None => false,
    }
}

impl DecodeProgress {
    /// The warnings this decode carries, given the frames it yielded and the
    /// frame count the container declared (if any).
    pub fn warnings(&self, decoded_frames: u64, declared_frames: Option<u64>) -> (ws: Vec<DecodeWarning>)
        ensures
            ws@ == warnings_of(*self, decoded_frames, declared_frames),
    {
        let mut ws: Vec<DecodeWarning> = Vec::new();
        if self.skipped_packets > 0 {
            ws.push(DecodeWarning::SkippedPackets { count: self.skipped_packets });
        }
        let ghost a = ws@;
        if self.early_end {
            ws.push(DecodeWarning::EarlyEnd);
        }
        let ghost b = ws@;
        if self.timed_out {
            ws.push(DecodeWarning::TimedOut);
        }
        let ghost c = ws@;
        match self.layout_changed {
            Some((nc, nr)) => {
                ws.push(
                    DecodeWarning::LayoutChanged {
                        channels: self.channels,
                        sample_rate: self.sample_rate,
                        new_channels: nc,
                        new_sample_rate: nr,
                    },
                );
            },
            None => {},
        }
        let ghost d = ws@;
        if truncated(decoded_frames, declared_frames) {
            let declared = match declared_frames {
                Some(n) => n,
                None => 0,
            };
            ws.push(DecodeWarning::Truncated { decoded_frames, declared_frames: declared });
        }
        assert(ws@ =~= warnings_of(*self, decoded_frames, declared_frames));
        ws
    }
}

/// The seconds figures that warnings quote, as the program prints them: the
/// timeout limit, the decoded duration and the declared duration.
pub struct SecondsText {
    pub timeout: String,
    pub decoded: String,
    pub declared: String,
}

/// The human-readable text of a warning, quoting seconds figures from `secs`
/// (timeout limit, decoded duration, declared duration).
pub open spec fn warning_text(w: DecodeWarning, timeout: Seq<char>, decoded: Seq<char>, declared: Seq<char>) -> Seq<char> {
    match w {
        DecodeWarning::SkippedPackets { count } => "skipped "@ + decimal(count as nat)
            + " corrupt packet(s)"@,
        DecodeWarning::EarlyEnd => "decode ended early on a stream error"@,
        DecodeWarning::TimedOut => "decode exceeded timeout of "@ + timeout + "s"@,
        DecodeWarning::LayoutChanged { channels, sample_rate, new_channels, new_sample_rate } =>
            "stream changed layout mid-file: "@ + decimal(channels as nat) + "ch/"@ + decimal(
            sample_rate as nat,
        ) + "Hz -> "@ + decimal(new_channels as nat) + "ch/"@ + decimal(new_sample_rate as nat)
            + "Hz"@,
        DecodeWarning::Truncated { .. } => "truncated: decoded "@ + decoded + "s of "@ + declared
            + "s declared"@,
    }
}

impl DecodeWarning {
    /// The warning as the output's `warnings` list spells it.
    pub fn text(&self, secs: &SecondsText) -> (t: String)
        ensures
            t@ == warning_text(*self, secs.timeout@, secs.decoded@, secs.declared@),
    {
        let mut t = String::new();
        match self {
            DecodeWarning::SkippedPackets { count } => {
                t.append("skipped ");
                t.append(decimal_text(*count as u64).as_str());
                t.append(" corrupt packet(s)");
            },
            DecodeWarning::EarlyEnd => {
                t.append("decode ended early on a stream error");
            },
            DecodeWarning::TimedOut => {
                t.append("decode exceeded timeout of ");
                t.append(secs.timeout.as_str());
                t.append("s");
            },
            DecodeWarning::LayoutChanged { channels, sample_rate, new_channels, new_sample_rate } => {
                t.append("stream changed layout mid-file: ");
                t.append(decimal_text(*channels as u64).as_str());
                t.append("ch/");
                t.append(decimal_text(*sample_rate as u64).as_str());
                t.append("Hz -> ");
                t.append(decimal_text(*new_channels as u64).as_str());
                t.append("ch/");
                t.append(decimal_text(*new_sample_rate as u64).as_str());
                t.append("Hz");
            },
            DecodeWarning::Truncated { .. } => {
                t.append("truncated: decoded ");
                t.append(secs.decoded.as_str());
                t.append("s of ");
                t.append(secs.declared.as_str());
                t.append("s declared");
            },
        }
        t
    }
}

/// The verdict on a finished decode with these warning texts: a strict scan
/// rejects any warning; otherwise the status is `Clean` exactly when there is no
/// warning, and the warnings are kept as they are.
pub fn conclude(warnings: Vec<String>, strict: bool) -> (r: Result<(Status, Vec<String>), ScanError>)
    ensures
        strict && warnings.len() > 0 ==> (r matches Err(ScanError::Decode(d)) && d@
            == "incomplete decode (strict): "@ + joined(
            warnings@.map_values(|w: String| w@),
            "; "@,
        )),
        !(strict && warnings.len() > 0) ==> (r matches Ok((st, ws)) && ws@ == warnings@ && (st
            == Status::Clean <==> warnings.len() == 0)),
{
    if strict && warnings.len() > 0 {
        let mut d = String::new();
        d.append("incomplete decode (strict): ");
        d.append(join_with(&warnings, "; ").as_str());
        Err(ScanError::Decode(d))
    } else {
        let st = if warnings.len() == 0 {
            Status::Clean
        } else {
            Status::Partial
        };
        Ok((st, warnings))
    }
}

/// The full report on a finished decode: its warning texts (see
/// [`DecodeProgress::warnings`] and [`DecodeWarning::text`]) judged by
/// [`conclude`].
pub fn assess(
    progress: &DecodeProgress,
    decoded_frames: u64,
    declared_frames: Option<u64>,
    strict: bool,
    secs: &SecondsText,
) -> (r: Result<(Status, Vec<String>), ScanError>)
    ensures
        ({
            let texts = warnings_of(*progress, decoded_frames, declared_frames).map_values(
                |w: DecodeWarning| warning_text(w, secs.timeout@, secs.decoded@, secs.declared@),
            );
            &&& strict && texts.len() > 0 ==> (r matches Err(ScanError::Decode(d)) && d@
                == "incomplete decode (strict): "@ + joined(texts, "; "@))
            &&& !(strict && texts.len() > 0) ==> (r matches Ok((st, ws)) && ws@.map_values(
                |w: String| w@,
            ) == texts && (st == Status::Clean <==> texts.len() == 0))
        }),
{
    let ws = progress.warnings(decoded_frames, declared_frames);
    let ghost texts = warnings_of(*progress, decoded_frames, declared_frames).map_values(
        |w: DecodeWarning| warning_text(w, secs.timeout@, secs.decoded@, secs.declared@),
    );
    let mut out: Vec<String> = Vec::new();
    let mut i: usize = 0;
    while i < ws.len()
        invariant
            i <= ws.len(),
            ws@ == warnings_of(*progress, decoded_frames, declared_frames),
            texts == ws@.map_values(
                |w: DecodeWarning| warning_text(w, secs.timeout@, secs.decoded@, secs.declared@),
            ),
            out.len() == i,
            forall|k: int| 0 <= k < i ==> #[trigger] out@[k]@ == texts[k],
        decreases ws.len() - i,
    {
        let t = ws[i].text(secs);
        out.push(t);
        i = i + 1;
    }
    assert(out@.map_values(|w: String| w@) =~= texts);
    conclude(out, strict)
}

/// Silence ranges, in frames, that each lie within the first `frames` frames,
/// start on a window boundary, span at least `gap` frames, and come in stream
/// order without touching.
pub open spec fn silences_fit(sp: Seq<(u64, u64)>, frames: nat, window: nat, gap: nat) -> bool {
    &&& forall|k: int| 0 <= k < sp.len() ==> #[trigger] sp[k].0 < sp[k].1 <= frames
    &&& forall|k: int| 0 <= k < sp.len() ==> #[trigger] sp[k].1 - sp[k].0 >= gap
    &&& forall|k: int| 0 <= k < sp.len() ==> (#[trigger] sp[k].0 as int) % (window as int) == 0
    &&& forall|k: int| 0 <= k < sp.len() - 1 ==> #[trigger] sp[k].1 < sp[k + 1].0
}

/// Everything a finished scan reports from its decode: the status and warning
/// texts, the number of frames decoded (from which the duration follows), and
/// the silences as `[start, end)` frame ranges.
pub struct ScanOutcome {
    pub status: Status,
    pub warnings: Vec<String>,
    pub decoded_frames: u64,
    pub silences: Vec<(u64, u64)>,
}

/// Ends a scan whose decoded frames were all pushed to `silence`: the decoded
/// frame count is the tracker's, so the reported duration and the silences
/// come from one count, and every silence ends within the decoded frames. The
/// warnings are judged as [`assess`] does, against that count; `last_silent`
/// is the verdict on the last, partial window (see [`SilenceTracker::finish`]).
pub fn finish_scan(
    progress: &DecodeProgress,
    silence: SilenceTracker,
    last_silent: bool,
    declared_frames: Option<u64>,
    strict: bool,
    secs: &SecondsText,
) -> (r: Result<ScanOutcome, ScanError>)
    requires
        silence.wf(),
    ensures
        ({
            let texts = warnings_of(*progress, silence.frames() as u64, declared_frames).map_values(
                |w: DecodeWarning| warning_text(w, secs.timeout@, secs.decoded@, secs.declared@),
            );
            let verdicts = if silence.filled() > 0 {
                silence.verdicts().push(last_silent)
            } else {
                silence.verdicts()
            };
            &&& strict && texts.len() > 0 ==> (r matches Err(ScanError::Decode(d)) && d@
                == "incomplete decode (strict): "@ + joined(texts, "; "@))
            &&& !(strict && texts.len() > 0) ==> (r matches Ok(o) && {
                &&& o.decoded_frames == silence.frames()
                &&& o.warnings@.map_values(|w: String| w@) == texts
                &&& (o.status == Status::Clean <==> texts.len() == 0)
                &&& o.silences@.map_values(|p: (u64, u64)| span_view(p)) == silence_spans(
                    verdicts,
                    silence.window_len() as int,
                    silence.frames() as int,
                    silence.min_gap() as int,
                )
                &&& silences_fit(o.silences@, silence.frames(), silence.window_len(), silence.min_gap())
            })
        }),
{
    let decoded_frames = silence.frames_seen();
    let (status, warnings) = assess(progress, decoded_frames, declared_frames, strict, secs)?;
    let silences = silence.finish(last_silent);
    Ok(ScanOutcome { status, warnings, decoded_frames, silences })
}

} // verus!

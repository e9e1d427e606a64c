//! Deterministic telemetry validation for ICCP-style ingestion.
use vstd::prelude::*;
use crate::text::{push_str, push_decimal, decimal};

verus! {

pub const SCAN_RATE_SECONDS: u64 = 2;

pub const STALE_THRESHOLD_SECONDS: u64 = 10;

pub const MAX_END_TO_END_LATENCY_SECONDS: u64 = 2;

pub const QUALITY_VALID: u8 = 0x00;

pub const QUALITY_HELD: u8 = 0x01;

pub const QUALITY_SUSPECT: u8 = 0x02;

pub const QUALITY_MANUAL: u8 = 0x04;

/// Quality of a telemetered value, decoded from its quality mask.
#[derive(Clone, Copy, Debug, PartialEq, Eq, Structural)]
pub enum TelemetryQuality {
    Valid,
    Held,
    Suspect,
    Manual,
    Composite(u8),
}

/// The quality a mask denotes: the four single flags by name, any other mask as
/// a composite.
pub open spec fn quality_of_mask(mask: u8) -> TelemetryQuality {
    if mask == QUALITY_VALID {
        TelemetryQuality::Valid
    } else if mask == QUALITY_HELD {
        TelemetryQuality::Held
    } else if mask == QUALITY_SUSPECT {
        TelemetryQuality::Suspect
    } else if mask == QUALITY_MANUAL {
        TelemetryQuality::Manual
    } else {
        TelemetryQuality::Composite(mask)
    }
}

/// Only the valid mask decodes to a valid quality: every other mask, a held value
/// among them, decodes to a quality that is refused.
pub proof fn lemma_only_valid_mask_is_valid(mask: u8)
    ensures
        (quality_of_mask(mask) == TelemetryQuality::Valid) <==> mask == QUALITY_VALID,
        mask == QUALITY_HELD ==> quality_of_mask(mask) == TelemetryQuality::Held,
{
}

impl TelemetryQuality {
    pub fn from_mask(mask: u8) -> (q: Self)
        ensures
            q == quality_of_mask(mask),
            (q == TelemetryQuality::Valid) <==> mask == QUALITY_VALID,
            mask == QUALITY_HELD ==> q == TelemetryQuality::Held,
            mask == QUALITY_SUSPECT ==> q == TelemetryQuality::Suspect,
            mask == QUALITY_MANUAL ==> q == TelemetryQuality::Manual,
    {
        match mask {
            QUALITY_VALID => TelemetryQuality::Valid,
            QUALITY_HELD => TelemetryQuality::Held,
            QUALITY_SUSPECT => TelemetryQuality::Suspect,
            QUALITY_MANUAL => TelemetryQuality::Manual,
            other => TelemetryQuality::Composite(other),
        }
    }

    /// Only a valid value is acceptable.
    pub fn is_acceptable(self) -> (r: bool)
        ensures
            r == (self == TelemetryQuality::Valid),
    {
        match self {
            TelemetryQuality::Valid => true,
            _ => false,
        }
    }
}

/// The timing and quality facts of one telemetered point that validation reads.
#[derive(Clone, Copy, Debug, PartialEq, Eq, Structural)]
pub struct TelemetryStamp {
    pub point_timestamp_ms_utc: u64,
    pub quality_mask: u8,
}

/// Thresholds for telemetry validation.
#[derive(Clone, Copy, Debug, PartialEq, Eq, Structural)]
pub struct TelemetryValidationConfig {
    pub stale_threshold_seconds: u64,
    pub max_end_to_end_latency_seconds: u64,
}

impl Default for TelemetryValidationConfig {
    fn default() -> (c: Self)
        ensures
            c.stale_threshold_seconds == STALE_THRESHOLD_SECONDS,
            c.max_end_to_end_latency_seconds == MAX_END_TO_END_LATENCY_SECONDS,
    {
        TelemetryValidationConfig {
            stale_threshold_seconds: STALE_THRESHOLD_SECONDS,
            max_end_to_end_latency_seconds: MAX_END_TO_END_LATENCY_SECONDS,
        }
    }
}

/// A reason a telemetered point was refused.
#[derive(Clone, Debug, PartialEq, Eq, Structural)]
pub enum TelemetryIssue {
    Stale { age_ms: u64, threshold_ms: u64 },
    ExcessiveLatency { latency_ms: u64, limit_ms: u64 },
    BadQuality { quality: TelemetryQuality },
}

pub open spec fn sat_sub(a: u64, b: u64) -> u64 {
    if a >= b {
        (a - b) as u64
    } else {
        0
    }
}

pub open spec fn sat_mul_1000(a: u64) -> u64 {
    if a * 1000 <= u64::MAX {
        (a * 1000) as u64
    } else {
        u64::MAX
    }
}

/// The issues of a point, in order: staleness, latency, quality.
pub open spec fn point_issues(point: TelemetryStamp, ingest_time_ms_utc: u64, latency_ms: u64, cfg: TelemetryValidationConfig) -> Seq<TelemetryIssue> {
    let age = sat_sub(ingest_time_ms_utc, point.point_timestamp_ms_utc);
    let stale = sat_mul_1000(cfg.stale_threshold_seconds);
    let limit = sat_mul_1000(cfg.max_end_to_end_latency_seconds);
    let q = quality_of_mask(point.quality_mask);
    (if age > stale {
        seq![TelemetryIssue::Stale { age_ms: age, threshold_ms: stale }]
    } else {
        Seq::empty()
    }) + (if latency_ms > limit {
        seq![TelemetryIssue::ExcessiveLatency { latency_ms, limit_ms: limit }]
    } else {
        Seq::empty()
    }) + (if q != TelemetryQuality::Valid {
        seq![TelemetryIssue::BadQuality { quality: q }]
    } else {
        Seq::empty()
    })
}

fn saturating_mul_1000(a: u64) -> (r: u64)
    ensures
        r == sat_mul_1000(a),
{
    if a > u64::MAX / 1000 {
        u64::MAX
    } else {
        a * 1000
    }
}

/// Validates a point's age, the reported end-to-end latency and its quality
/// (saturating arithmetic throughout).
pub fn validate_point(
    point: &TelemetryStamp,
    ingest_time_ms_utc: u64,
    source_to_ercot_latency_ms: u64,
    cfg: TelemetryValidationConfig,
) -> (issues: Vec<TelemetryIssue>)
    ensures
        issues@ == point_issues(*point, ingest_time_ms_utc, source_to_ercot_latency_ms, cfg),
        point.quality_mask != QUALITY_VALID ==> issues@.len() > 0 && issues@.last() is BadQuality,
        point.quality_mask == QUALITY_VALID ==> forall|i: int| 0 <= i < issues@.len() ==> !((#[trigger] issues@[i]) is BadQuality),
        point.quality_mask == QUALITY_HELD ==> issues@.last() == (TelemetryIssue::BadQuality { quality: TelemetryQuality::Held }),
{
    let mut issues: Vec<TelemetryIssue> = Vec::new();
    let age_ms = ingest_time_ms_utc.saturating_sub(point.point_timestamp_ms_utc);
    let stale_ms = saturating_mul_1000(cfg.stale_threshold_seconds);
    if age_ms > stale_ms {
        issues.push(TelemetryIssue::Stale { age_ms, threshold_ms: stale_ms });
    }
    let ghost first = issues@;
    let latency_limit_ms = saturating_mul_1000(cfg.max_end_to_end_latency_seconds);
    if source_to_ercot_latency_ms > latency_limit_ms {
        issues.push(TelemetryIssue::ExcessiveLatency { latency_ms: source_to_ercot_latency_ms, limit_ms: latency_limit_ms });
    }
    let ghost second = issues@;
    let quality = TelemetryQuality::from_mask(point.quality_mask);
    if !quality.is_acceptable() {
        issues.push(TelemetryIssue::BadQuality { quality });
    }
    assert(issues@ == point_issues(*point, ingest_time_ms_utc, source_to_ercot_latency_ms, cfg));
    issues
}

/// How a quality is printed in an issue (its variant, as `Debug` shows it).
pub open spec fn quality_text(q: TelemetryQuality) -> Seq<char> {
    match q {
        TelemetryQuality::Valid => "Valid"@,
        TelemetryQuality::Held => "Held"@,
        TelemetryQuality::Suspect => "Suspect"@,
        TelemetryQuality::Manual => "Manual"@,
        TelemetryQuality::Composite(m) => "Composite("@ + decimal(m as nat) + ")"@,
    }
}

/// The display text of an issue.
pub open spec fn issue_text_spec(issue: TelemetryIssue) -> Seq<char> {
    match issue {
        TelemetryIssue::Stale { age_ms, threshold_ms } => "stale telemetry: age_ms="@ + decimal(age_ms as nat)
            + " threshold_ms="@ + decimal(threshold_ms as nat),
        TelemetryIssue::ExcessiveLatency { latency_ms, limit_ms } => "latency exceeded: latency_ms="@ + decimal(
            latency_ms as nat,
        ) + " limit_ms="@ + decimal(limit_ms as nat),
        TelemetryIssue::BadQuality { quality } => "bad quality: "@ + quality_text(quality),
    }
}

impl TelemetryIssue {
    /// The display text of the issue.
    pub fn issue_text(&self) -> (s: String)
        ensures
            s@ == issue_text_spec(*self),
    {
        let mut s = String::new();
        match self {
            TelemetryIssue::Stale { age_ms, threshold_ms } => {
                push_str(&mut s, "stale telemetry: age_ms=");
                push_decimal(&mut s, *age_ms);
                push_str(&mut s, " threshold_ms=");
                push_decimal(&mut s, *threshold_ms);
            },
            TelemetryIssue::ExcessiveLatency { latency_ms, limit_ms } => {
                push_str(&mut s, "latency exceeded: latency_ms=");
                push_decimal(&mut s, *latency_ms);
                push_str(&mut s, " limit_ms=");
                push_decimal(&mut s, *limit_ms);
            },
            TelemetryIssue::BadQuality { quality } => {
                push_str(&mut s, "bad quality: ");
                match quality {
                    TelemetryQuality::Valid => push_str(&mut s, "Valid"),
                    TelemetryQuality::Held => push_str(&mut s, "Held"),
                    TelemetryQuality::Suspect => push_str(&mut s, "Suspect"),
                    TelemetryQuality::Manual => push_str(&mut s, "Manual"),
                    TelemetryQuality::Composite(m) => {
                        push_str(&mut s, "Composite(");
                        push_decimal(&mut s, *m as u64);
                        push_str(&mut s, ")");
                    },
                }
            },
        }
        s
    }
}

/// Expected direction of a bus-oriented flow.
#[derive(Clone, Copy, Debug, PartialEq, Eq, Structural)]
pub enum FlowDirection {
    OutOfBus,
    IntoBus,
}

/// State of a double-bit breaker indication.
#[derive(Clone, Copy, Debug, PartialEq, Eq, Structural)]
pub enum BreakerState {
    Intermediate,
    Closed,
    Open,
    BadState,
}

/// Decodes a two-bit breaker indication: 00 intermediate, 01 closed, 10 open,
/// 11 bad; wider values are refused.
pub fn decode_double_bit_breaker(bits: u8) -> (r: Option<BreakerState>)
    ensures
        bits == 0 ==> r == Some(BreakerState::Intermediate),
        bits == 1 ==> r == Some(BreakerState::Closed),
        bits == 2 ==> r == Some(BreakerState::Open),
        bits == 3 ==> r == Some(BreakerState::BadState),
        bits > 3 ==> r is None,
{
    match bits {
        0b00 => Some(BreakerState::Intermediate),
        0b01 => Some(BreakerState::Closed),
        0b10 => Some(BreakerState::Open),
        0b11 => Some(BreakerState::BadState),
        _ => None,
    }
}

/// Every mask other than the valid one yields a quality issue, and a fresh,
/// timely, valid point has none.
pub proof fn lemma_fresh_valid_point_has_no_issues(point: TelemetryStamp, ingest_time_ms_utc: u64, latency_ms: u64, cfg: TelemetryValidationConfig)
    requires
        point.quality_mask == QUALITY_VALID,
        sat_sub(ingest_time_ms_utc, point.point_timestamp_ms_utc) <= sat_mul_1000(cfg.stale_threshold_seconds),
        latency_ms <= sat_mul_1000(cfg.max_end_to_end_latency_seconds),
    ensures
        point_issues(point, ingest_time_ms_utc, latency_ms, cfg).len() == 0,
{
}

} // verus!

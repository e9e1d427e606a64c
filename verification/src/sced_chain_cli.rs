//! The command line of the offer-chain verifier: its arguments, and how a parse
//! failure and a record key are reported.
use vstd::prelude::*;
use crate::int_parse::{parse_usize, parse_unsigned};
use crate::sced_offer_chain::{ParseError, RecordKey, VerifyCode, VerifyError};
use crate::text::{push_str, string_eq_str};

verus! {

/// What the verifier was asked to do.
#[derive(Debug)]
pub struct CliArgs {
    pub input_path: String,
    pub expected_hash: Option<String>,
    pub expected_records_total: Option<usize>,
}

/// The usage line.
pub open spec fn usage_text() -> Seq<char> {
    "Usage: cargo run --bin sced_chain -- verify <input.csv> [expected_hash] [--records-total <usize>]"@
}

/// The options after the input path, read from position `i` with what was read so far:
/// `--records-total` takes the next argument as a count; the first other argument is
/// the expected hash, a second one is refused.
pub open spec fn scan_options(
    args: Seq<Seq<char>>,
    i: int,
    hash: Option<Seq<char>>,
    total: Option<nat>,
) -> Result<(Option<Seq<char>>, Option<nat>), Seq<char>>
    decreases args.len() - i,
{
    if i >= args.len() || i < 0 {
        Ok((hash, total))
    } else if args[i] == "--records-total"@ {
        if i + 1 >= args.len() {
            Err("--records-total requires a numeric value"@)
        } else {
            match parse_unsigned(args[i + 1], usize::MAX as nat) {
                Some(n) => scan_options(args, i + 2, hash, Some(n)),
                None => Err("invalid --records-total value '"@ + args[i + 1] + "': expected usize"@),
            }
        }
    } else if hash is None {
        scan_options(args, i + 1, Some(args[i]), total)
    } else {
        Err("Unexpected argument '"@ + args[i] + "'"@)
    }
}

/// The command line as the verifier reads it (the program name first).
pub open spec fn cli_spec(args: Seq<Seq<char>>) -> Result<(Seq<char>, Option<Seq<char>>, Option<nat>), Seq<char>> {
    if args.len() < 3 {
        Err(usage_text())
    } else if args[1] != "verify"@ {
        Err("Only 'verify' command is supported."@)
    } else {
        match scan_options(args, 3, None, None) {
            Ok(o) => Ok((args[2], o.0, o.1)),
            Err(e) => Err(e),
        }
    }
}

/// Views of a vector of strings.
pub open spec fn arg_views(v: Seq<String>) -> Seq<Seq<char>> {
    v.map_values(|s: String| s@)
}

/// Reads the verifier's command line: `verify <input.csv> [expected_hash]
/// [--records-total <usize>]`, the options in any order.
pub fn parse_cli_args(args: &Vec<String>) -> (r: Result<CliArgs, String>)
    ensures
        match r {
            Ok(a) => cli_spec(arg_views(args@)) == Ok::<(Seq<char>, Option<Seq<char>>, Option<nat>), Seq<char>>(
                (
                    a.input_path@,
                    match a.expected_hash {
                        Some(h) => Some(h@),
                        None => None,
                    },
                    match a.expected_records_total {
                        Some(n) => Some(n as nat),
                        None => None,
                    },
                ),
            ),
            Err(e) => cli_spec(arg_views(args@)) == Err::<(Seq<char>, Option<Seq<char>>, Option<nat>), Seq<char>>(e@),
        },
{
    let ghost views = arg_views(args@);
    if args.len() < 3 {
        return Err(
            "Usage: cargo run --bin sced_chain -- verify <input.csv> [expected_hash] [--records-total <usize>]".to_string(),
        );
    }
    assert(views[1] == args@[1]@);
    if !string_eq_str(&args[1], "verify") {
        return Err("Only 'verify' command is supported.".to_string());
    }
    let mut expected_hash: Option<String> = None;
    let mut expected_records_total: Option<usize> = None;
    let mut i: usize = 3;
    while i < args.len()
        invariant
            3 <= i <= args.len() + 1,
            views == arg_views(args@),
            args.len() >= 3,
            cli_spec(views) == (match scan_options(views, 3, None, None) {
                Ok(o) => Ok((views[2], o.0, o.1)),
                Err(e) => Err(e),
            }),
            scan_options(views, 3, None, None) == scan_options(
                views,
                i as int,
                match expected_hash {
                    Some(h) => Some(h@),
                    None => None,
                },
                match expected_records_total {
                    Some(n) => Some(n as nat),
                    None => None,
                },
            ),
        decreases args.len() + 1 - i,
    {
        assert(views[i as int] == args@[i as int]@);
        if string_eq_str(&args[i], "--records-total") {
            if i + 1 >= args.len() {
                return Err("--records-total requires a numeric value".to_string());
            }
            assert(views[i + 1] == args@[i + 1]@);
            match parse_usize(args[i + 1].as_str()) {
                Some(n) => {
                    expected_records_total = Some(n);
                },
                None => {
                    let mut e = "invalid --records-total value '".to_string();
                    push_str(&mut e, args[i + 1].as_str());
                    push_str(&mut e, "': expected usize");
                    return Err(e);
                },
            }
            i = i + 2;
        } else {
            if expected_hash.is_none() {
                expected_hash = Some(args[i].clone());
                i = i + 1;
            } else {
                let mut e = "Unexpected argument '".to_string();
                push_str(&mut e, args[i].as_str());
                push_str(&mut e, "'");
                return Err(e);
            }
        }
    }
    Ok(CliArgs { input_path: args[2].clone(), expected_hash, expected_records_total })
}

/// The text of a verification code in reports.
pub open spec fn code_text(code: VerifyCode) -> Seq<char> {
    match code {
        VerifyCode::DuplicatePk => "DUPLICATE_PK"@,
        VerifyCode::InvalidNumeric => "INVALID_NUMERIC"@,
        VerifyCode::InvalidBoolean => "INVALID_BOOLEAN"@,
        VerifyCode::HashMismatch => "HASH_MISMATCH"@,
        VerifyCode::CsvSchemaMismatch => "CSV_SCHEMA_MISMATCH"@,
        VerifyCode::RecordCountMismatch => "RECORD_COUNT_MISMATCH"@,
        VerifyCode::ChainContinuityBreak => "CHAIN_CONTINUITY_BREAK"@,
        VerifyCode::CsvMalformed => "CSV_MALFORMED"@,
    }
}

/// The text of a verification code in reports.
pub fn code_as_str(code: VerifyCode) -> (s: &'static str)
    ensures
        s@ == code_text(code),
{
    match code {
        VerifyCode::DuplicatePk => "DUPLICATE_PK",
        VerifyCode::InvalidNumeric => "INVALID_NUMERIC",
        VerifyCode::InvalidBoolean => "INVALID_BOOLEAN",
        VerifyCode::HashMismatch => "HASH_MISMATCH",
        VerifyCode::CsvSchemaMismatch => "CSV_SCHEMA_MISMATCH",
        VerifyCode::RecordCountMismatch => "RECORD_COUNT_MISMATCH",
        VerifyCode::ChainContinuityBreak => "CHAIN_CONTINUITY_BREAK",
        VerifyCode::CsvMalformed => "CSV_MALFORMED",
    }
}

/// `true` or `false`.
pub open spec fn bool_word(b: bool) -> Seq<char> {
    if b {
        "true"@
    } else {
        "false"@
    }
}

/// A record key in reports: `(timestamp,flag,resource,offer type)`.
pub open spec fn key_text(k: RecordKey) -> Seq<char> {
    "("@ + k.scd_timestamp@ + ","@ + bool_word(k.repeat_hour_flag) + ","@ + k.resource_name@ + ","@ + k.offer_type@
        + ")"@
}

/// A record key in reports.
pub fn format_key(key: &RecordKey) -> (s: String)
    ensures
        s@ == key_text(*key),
{
    let mut s = "(".to_string();
    push_str(&mut s, key.scd_timestamp.as_str());
    push_str(&mut s, ",");
    push_str(&mut s, if key.repeat_hour_flag { "true" } else { "false" });
    push_str(&mut s, ",");
    push_str(&mut s, key.resource_name.as_str());
    push_str(&mut s, ",");
    push_str(&mut s, key.offer_type.as_str());
    push_str(&mut s, ")");
    s
}

/// Whether a key is the empty key (no record).
pub open spec fn is_empty_key(k: RecordKey) -> bool {
    k.scd_timestamp@.len() == 0 && !k.repeat_hour_flag && k.resource_name@.len() == 0 && k.offer_type@.len() == 0
}

fn no_key() -> (k: RecordKey)
    ensures
        is_empty_key(k),
{
    RecordKey { scd_timestamp: String::new(), repeat_hour_flag: false, resource_name: String::new(), offer_type: String::new() }
}

/// The verification error that reports a batch the parser refused: its code, its
/// message, and the duplicated key for a duplicate (the empty key otherwise).
pub open spec fn parse_error_report(err: ParseError) -> (VerifyCode, Seq<char>) {
    match err {
        ParseError::MissingColumn(_) => (VerifyCode::CsvSchemaMismatch, "CSV schema mismatch"@),
        ParseError::MissingValue(field) => (VerifyCode::CsvMalformed, "missing value for field '"@ + field@ + "'"@),
        ParseError::InvalidBoolean(v) => (VerifyCode::InvalidBoolean, "invalid boolean '"@ + v@ + "'"@),
        ParseError::InvalidNumeric(field, v) => (
            VerifyCode::InvalidNumeric,
            "invalid numeric field '"@ + field@ + "' with value '"@ + v@ + "'"@,
        ),
        ParseError::DuplicatePrimaryKey(..) => (VerifyCode::DuplicatePk, "duplicate primary key detected"@),
        ParseError::MalformedCsv(msg) => (VerifyCode::CsvMalformed, msg@),
    }
}

/// Turns a parse failure into the verification error that reports it.
pub fn map_cli_parse_error(err: ParseError) -> (e: VerifyError)
    ensures
        (e.code, e.message@) == parse_error_report(err),
        match err {
            ParseError::DuplicatePrimaryKey(ts, rep, res, typ) => e.record_key == (RecordKey {
                scd_timestamp: ts,
                repeat_hour_flag: rep,
                resource_name: res,
                offer_type: typ,
            }),
            _ => is_empty_key(e.record_key),
        },
{
    match err {
        ParseError::MissingColumn(_) => VerifyError {
            code: VerifyCode::CsvSchemaMismatch,
            message: "CSV schema mismatch".to_string(),
            record_key: no_key(),
        },
        ParseError::MissingValue(field) => {
            let mut m = "missing value for field '".to_string();
            push_str(&mut m, field.as_str());
            push_str(&mut m, "'");
            VerifyError { code: VerifyCode::CsvMalformed, message: m, record_key: no_key() }
        },
        ParseError::InvalidBoolean(v) => {
            let mut m = "invalid boolean '".to_string();
            push_str(&mut m, v.as_str());
            push_str(&mut m, "'");
            VerifyError { code: VerifyCode::InvalidBoolean, message: m, record_key: no_key() }
        },
        ParseError::InvalidNumeric(field, v) => {
            let mut m = "invalid numeric field '".to_string();
            push_str(&mut m, field.as_str());
            push_str(&mut m, "' with value '");
            push_str(&mut m, v.as_str());
            push_str(&mut m, "'");
            VerifyError { code: VerifyCode::InvalidNumeric, message: m, record_key: no_key() }
        },
        ParseError::DuplicatePrimaryKey(ts, rep, res, typ) => VerifyError {
            code: VerifyCode::DuplicatePk,
            message: "duplicate primary key detected".to_string(),
            record_key: RecordKey { scd_timestamp: ts, repeat_hour_flag: rep, resource_name: res, offer_type: typ },
        },
        ParseError::MalformedCsv(msg) => VerifyError { code: VerifyCode::CsvMalformed, message: msg, record_key: no_key() },
    }
}

} // verus!

//! The machine: its maker, board, kernel, processor, graphics adapters and
//! memory, each read from the text of the descriptor that holds it.
//!
//! A descriptor that could not be read is handed over as `None`.
use crate::error::{reads_as, FactError};
use crate::number::{parse_i64, parsed_i64, push_decimal, push_signed_decimal, signed_decimal};
use crate::text::{
    chars_of, contains, cut, field_spans, fields, line_spans, lines, span_contains, token_spans,
    tokens, trim, trim_span, trimmed, whole, whole_span, Span,
};
use vstd::prelude::*;
use vstd::string::StringExecFns;

verus! {

/// The trimmed text of a descriptor.
pub open spec fn descriptor_of(source: Option<&str>) -> Result<Seq<char>, FactError> {
    match source {
        Some(text) => Ok(trimmed(text@)),
        None => Err(FactError::Unavailable),
    }
}

/// Two descriptors, each trimmed, with one blank between them.
pub open spec fn pair_of(first: Option<&str>, second: Option<&str>) -> Result<
    Seq<char>,
    FactError,
> {
    match (first, second) {
        (Some(a), Some(b)) => Ok(trimmed(a@) + seq![' '] + trimmed(b@)),
        _ => Err(FactError::Unavailable),
    }
}

/// Reads one descriptor: its text without the whitespace around it.
fn read_descriptor(source: Option<&str>) -> (r: Result<String, FactError>)
    ensures
        reads_as(r, descriptor_of(source)),
{
    match source {
        Some(text) => Ok(trim(text)),
        None => Err(FactError::Unavailable),
    }
}

/// Reads two descriptors and joins them with a blank.
fn read_pair(first: Option<&str>, second: Option<&str>) -> (r: Result<String, FactError>)
    ensures
        reads_as(r, pair_of(first, second)),
{
    match (first, second) {
        (Some(a), Some(b)) => {
            let mut out = trim(a);
            let tail = trim(b);
            proof {
                reveal_strlit(" ");
            }
            out.append(" ");
            out.append(tail.as_str());
            assert(" "@ =~= seq![' ']);
            Ok(out)
        },
        _ => Err(FactError::Unavailable),
    }
}

/// The machine's vendor and product name, from the two descriptors that
/// hold them: each trimmed, with a blank between them. Without either
/// descriptor the fact is unavailable.
pub fn get_host(vendor: Option<&str>, product: Option<&str>) -> (r: Result<String, FactError>)
    ensures
        reads_as(r, pair_of(vendor, product)),
{
    read_pair(vendor, product)
}

/// The vendor of the motherboard: its descriptor, trimmed.
pub fn get_motherboard_vendor(vendor: Option<&str>) -> (r: Result<String, FactError>)
    ensures
        reads_as(r, descriptor_of(vendor)),
{
    read_descriptor(vendor)
}

/// The name of the motherboard: its descriptor, trimmed.
pub fn get_motherboard_name(name: Option<&str>) -> (r: Result<String, FactError>)
    ensures
        reads_as(r, descriptor_of(name)),
{
    read_descriptor(name)
}

/// The vendor and the name of the motherboard, with a blank between them.
/// Without either descriptor the fact is unavailable.
pub fn get_motherboard_info(vendor: Option<&str>, name: Option<&str>) -> (r: Result<
    String,
    FactError,
>)
    ensures
        reads_as(r, pair_of(vendor, name)),
{
    match get_motherboard_vendor(vendor) {
        Ok(maker) => match get_motherboard_name(name) {
            Ok(board) => {
                let mut out = maker;
                proof {
                    reveal_strlit(" ");
                }
                out.append(" ");
                out.append(board.as_str());
                assert(" "@ =~= seq![' ']);
                Ok(out)
            },
            Err(e) => Err(e),
        },
        Err(e) => Err(e),
    }
}

/// The third token of the kernel's version line, or `Unknown`.
pub open spec fn kernel_version_of(version: Option<&str>) -> Seq<char> {
    match version {
        Some(text) => if tokens(text@).len() > 2 {
            tokens(text@)[2]
        } else {
            "Unknown"@
        },
        None => "Unknown"@,
    }
}

/// The version of the running kernel: the third whitespace-delimited token of
/// the version descriptor. Without one the answer is `Unknown`.
pub fn get_kernel_version(version: Option<&str>) -> (r: String)
    ensures
        r@ == kernel_version_of(version),
{
    match version {
        Some(text) => {
            let v = chars_of(text);
            let found = token_spans(&v, whole_span(&v));
            if found.len() > 2 {
                cut(text, found[2])
            } else {
                "Unknown".to_owned()
            }
        },
        None => "Unknown".to_owned(),
    }
}

/// The processor's model: what follows the last colon of the fifth line of
/// the processor descriptor, trimmed. A descriptor of fewer lines, or one
/// whose fifth line holds no colon, is malformed.
pub open spec fn cpu_model_of(source: Option<&str>) -> Result<Seq<char>, FactError> {
    match source {
        Some(text) => if lines(text@).len() >= 5 && fields(lines(text@)[4], ':').len() >= 2 {
            Ok(trimmed(fields(lines(text@)[4], ':').last()))
        } else {
            Err(FactError::Malformed)
        },
        None => Err(FactError::Unavailable),
    }
}

/// The model name of the processor, from the processor descriptor.
pub fn get_cpu_model(cpuinfo: Option<&str>) -> (r: Result<String, FactError>)
    ensures
        reads_as(r, cpu_model_of(cpuinfo)),
{
    match cpuinfo {
        Some(text) => {
            let v = chars_of(text);
            let found = line_spans(&v);
            if found.len() < 5 {
                return Err(FactError::Malformed);
            }
            let line = found[4];
            assert(line.within(whole(v@)));
            let parts = field_spans(&v, line, ':');
            if parts.len() < 2 {
                return Err(FactError::Malformed);
            }
            let last = parts[parts.len() - 1];
            assert(last.within(line));
            let span = trim_span(&v, last);
            Ok(cut(text, span))
        },
        None => Err(FactError::Unavailable),
    }
}

/// A line of the adapter listing that names a graphics adapter.
pub open spec fn is_gpu_line(line: Seq<char>) -> bool {
    contains(line, "VGA"@) || contains(line, "3D controller"@)
}

/// The predicate that holds of the lines that name a graphics adapter.
pub open spec fn gpu_line() -> spec_fn(Seq<char>) -> bool {
    |line: Seq<char>| is_gpu_line(line)
}

/// The texts of a list of strings.
pub open spec fn views(list: Seq<String>) -> Seq<Seq<char>> {
    Seq::new(list.len(), |i: int| list[i]@)
}

/// The lines of the adapter listing that name a graphics adapter, as they
/// stand and in their order.
pub open spec fn gpu_info_of(source: Option<&str>) -> Result<Seq<Seq<char>>, FactError> {
    match source {
        Some(text) => Ok(lines(text@).filter(gpu_line())),
        None => Err(FactError::Unavailable),
    }
}

/// The graphics adapters of the machine: the lines of the adapter listing
/// that hold `VGA` or `3D controller`. Without a listing the fact is
/// unavailable.
pub fn get_gpu_info(listing: Option<&str>) -> (r: Result<Vec<String>, FactError>)
    ensures
        match (r, gpu_info_of(listing)) {
            (Ok(list), Ok(expected)) => views(list@) == expected,
            (Err(e), Err(f)) => e == f,
            _ => false,
        },
{
    match listing {
        Some(text) => {
            let v = chars_of(text);
            let found = line_spans(&v);
            let vga = chars_of("VGA");
            let controller = chars_of("3D controller");
            let mut out: Vec<String> = Vec::new();
            let mut i: usize = 0;
            proof {
                reveal(Seq::filter);
                assert(lines(v@).take(0) =~= Seq::<Seq<char>>::empty());
                assert(views(out@) =~= lines(v@).take(0).filter(gpu_line()));
            }
            while i < found.len()
                invariant
                    v@ == text@,
                    vga@ == "VGA"@,
                    controller@ == "3D controller"@,
                    crate::text::texts(found@, v@) == lines(v@),
                    crate::text::all_within(found@, whole(v@)),
                    i <= found.len(),
                    views(out@) == lines(v@).take(i as int).filter(gpu_line()),
                decreases found.len() - i,
            {
                let line = found[i];
                assert(line.within(whole(v@)));
                let keep = span_contains(&v, line, &vga) || span_contains(&v, line, &controller);
                proof {
                    reveal(Seq::filter);
                    let before = lines(v@).take(i as int);
                    let now = lines(v@).take(i + 1);
                    assert(now.drop_last() =~= before);
                    assert(now.last() == line.of(v@));
                    assert(keep == gpu_line()(now.last()));
                }
                if keep {
                    let entry = cut(text, line);
                    assert(views(out@.push(entry)) =~= views(out@).push(entry@));
                    out.push(entry);
                }
                i += 1;
            }
            assert(lines(v@).take(i as int) =~= lines(v@));
            Ok(out)
        },
        None => Err(FactError::Unavailable),
    }
}

/// The number that stands second on a line, where the line has a second
/// token and that token is an integer of 64 bits.
pub open spec fn second_number(line: Seq<char>) -> Option<i64> {
    if tokens(line).len() > 1 {
        parsed_i64(tokens(line)[1])
    } else {
        None
    }
}

/// The quotient of two integers, rounded toward zero.
pub open spec fn quotient_toward_zero(n: int, d: int) -> int {
    if n >= 0 {
        n / d
    } else {
        -((-n) / d)
    }
}

/// Memory in use and memory in all, each divided by 1024 toward zero and
/// written with two zero decimals and the unit.
pub open spec fn memory_text(total: int, free: int) -> Seq<char> {
    signed_decimal(quotient_toward_zero(total - free, 1024)) + ".00MB/"@ + signed_decimal(
        quotient_toward_zero(total, 1024),
    ) + ".00MB"@
}

/// The memory line of a report: the first line of the memory descriptor
/// gives the total, the second what is free, each as its second token. A
/// descriptor of fewer than two lines, or with a line that holds no such
/// number, is malformed.
pub open spec fn memory_info_of(source: Option<&str>) -> Result<Seq<char>, FactError> {
    match source {
        Some(text) => if lines(text@).len() >= 2 {
            match (second_number(lines(text@)[0]), second_number(lines(text@)[1])) {
                (Some(total), Some(free)) => Ok(memory_text(total as int, free as int)),
                _ => Err(FactError::Malformed),
            }
        } else {
            Err(FactError::Malformed)
        },
        None => Err(FactError::Unavailable),
    }
}

/// Reads the second token of a line as a number.
fn read_second_number(v: &Vec<char>, line: Span) -> (r: Option<i64>)
    requires
        line.fits(v@),
    ensures
        r == second_number(line.of(v@)),
{
    let found = token_spans(v, line);
    if found.len() > 1 {
        let token = found[1];
        assert(token.within(line));
        parse_i64(v, token)
    } else {
        None
    }
}

/// Appends the quotient of `n` by 1024, rounded toward zero.
fn push_quotient(out: &mut String, n: i128)
    requires
        -0x1_0000_0000_0000_0000 <= n <= 0x1_0000_0000_0000_0000,
    ensures
        final(out)@ == old(out)@ + signed_decimal(quotient_toward_zero(n as int, 1024)),
{
    if n >= 0 {
        let q: u64 = (n / 1024) as u64;
        push_decimal(out, q);
    } else {
        let q: u64 = ((0 - n) / 1024) as u64;
        if q == 0 {
            push_decimal(out, 0);
        } else {
            push_signed_decimal(out, 0 - (q as i64));
        }
    }
}

/// Memory in use and in all, from the memory descriptor: `used/total`, each
/// a whole number of units of 1024 followed by `.00MB`.
pub fn get_memory_info(meminfo: Option<&str>) -> (r: Result<String, FactError>)
    ensures
        reads_as(r, memory_info_of(meminfo)),
{
    match meminfo {
        Some(text) => {
            let v = chars_of(text);
            let found = line_spans(&v);
            if found.len() < 2 {
                return Err(FactError::Malformed);
            }
            assert(found@[0].within(whole(v@)));
            assert(found@[1].within(whole(v@)));
            let total = match read_second_number(&v, found[0]) {
                Some(n) => n,
                None => {
                    return Err(FactError::Malformed);
                },
            };
            let free = match read_second_number(&v, found[1]) {
                Some(n) => n,
                None => {
                    return Err(FactError::Malformed);
                },
            };
            let mut out = String::new();
            push_quotient(&mut out, total as i128 - free as i128);
            out.append(".00MB/");
            push_quotient(&mut out, total as i128);
            out.append(".00MB");
            assert(out@ =~= memory_text(total as int, free as int));
            Ok(out)
        },
        None => Err(FactError::Unavailable),
    }
}

} // verus!

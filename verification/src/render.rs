//! The report: the facts in the order in which they are shown, each under
//! its label, and the rows that set them beside the lines of a logo.
use crate::error::FactError;
use crate::number::{decimal, push_decimal};
use crate::text::{chars_of, cut, field_spans, fields, trim_span, trimmed, whole, whole_span};
use vstd::prelude::*;
use vstd::string::StringExecFns;

verus! {

/// The model of a graphics adapter, from its line of the adapter listing:
/// the third of the line's fields between colons, up to its first opening
/// bracket, trimmed. A line of fewer than three fields names no model.
pub open spec fn gpu_model_of(line: Seq<char>) -> Option<Seq<char>> {
    if fields(line, ':').len() >= 3 {
        Some(trimmed(fields(fields(line, ':')[2], '[')[0]))
    } else {
        None
    }
}

/// The model that a line of the adapter listing names.
pub fn gpu_model(line: &str) -> (r: Option<String>)
    ensures
        match (r, gpu_model_of(line@)) {
            (Some(model), Some(expected)) => model@ == expected,
            (None, None) => true,
            _ => false,
        },
{
    let v = chars_of(line);
    let parts = field_spans(&v, whole_span(&v), ':');
    if parts.len() < 3 {
        return None;
    }
    let third = parts[2];
    assert(third.within(whole(v@)));
    let pieces = field_spans(&v, third, '[');
    let head = pieces[0];
    assert(head.within(third));
    let span = trim_span(&v, head);
    Some(cut(line, span))
}

/// One line of the report: what the fact is called, and what it is.
#[derive(Debug)]
pub struct SystemFact {
    pub label: String,
    pub value: String,
}

/// The facts of one run, each as the string that is shown.
#[derive(Debug)]
pub struct Report {
    pub distro: String,
    pub host: String,
    pub kernel: String,
    pub uptime: String,
    pub packages: String,
    pub shell: String,
    pub terminal: String,
    pub motherboard: String,
    pub cpu: String,
    pub memory: String,
    /// The lines of the adapter listing that name a graphics adapter.
    pub gpus: Vec<String>,
}

/// The labels of the facts that every report holds, in their order.
pub open spec fn fixed_labels() -> Seq<Seq<char>> {
    seq![
        "OS"@,
        "Host"@,
        "Kernel"@,
        "Uptime"@,
        "Packages"@,
        "Shell"@,
        "Terminal"@,
        "Motherboard"@,
        "CPU"@,
        "Memory"@,
    ]
}

/// The values that stand under those labels.
pub open spec fn fixed_values(report: Report) -> Seq<Seq<char>> {
    seq![
        report.distro@,
        report.host@,
        report.kernel@,
        report.uptime@,
        report.packages@,
        report.shell@,
        report.terminal@,
        report.motherboard@,
        report.cpu@,
        report.memory@,
    ]
}

/// The label of a graphics adapter: they are numbered from one.
pub open spec fn gpu_label(index: nat) -> Seq<char> {
    "GPU "@ + decimal(index + 1)
}

/// The lines of a report are in order: first the ten facts that every report
/// holds, under their labels, then one line for each graphics adapter, under
/// its number and with its model.
pub open spec fn is_report(list: Seq<SystemFact>, report: Report) -> bool {
    &&& list.len() == 10 + report.gpus@.len()
    &&& forall|i: int|
        0 <= i < 10 ==> (#[trigger] list[i]).label@ == fixed_labels()[i] && list[i].value@
            == fixed_values(report)[i]
    &&& forall|i: int|
        0 <= i < report.gpus@.len() ==> (#[trigger] list[10 + i]).label@ == gpu_label(i as nat)
            && gpu_model_of(report.gpus@[i]@) == Some(list[10 + i].value@)
}

/// One line of a report.
fn fact(label: &str, value: &String) -> (r: SystemFact)
    ensures
        r.label@ == label@,
        r.value@ == value@,
{
    SystemFact { label: label.to_owned(), value: value.clone() }
}

/// The lines of a report, in the order in which they are shown. A report
/// with a graphics adapter whose line names no model is malformed.
pub fn fact_lines(report: &Report) -> (r: Result<Vec<SystemFact>, FactError>)
    ensures
        match r {
            Ok(list) => is_report(list@, *report),
            Err(e) => e == FactError::Malformed && exists|i: int|
                0 <= i < report.gpus@.len() && gpu_model_of(#[trigger] report.gpus@[i]@) is None,
        },
{
    let mut list: Vec<SystemFact> = Vec::new();
    list.push(fact("OS", &report.distro));
    list.push(fact("Host", &report.host));
    list.push(fact("Kernel", &report.kernel));
    list.push(fact("Uptime", &report.uptime));
    list.push(fact("Packages", &report.packages));
    list.push(fact("Shell", &report.shell));
    list.push(fact("Terminal", &report.terminal));
    list.push(fact("Motherboard", &report.motherboard));
    list.push(fact("CPU", &report.cpu));
    list.push(fact("Memory", &report.memory));
    let mut i: usize = 0;
    while i < report.gpus.len()
        invariant
            i <= report.gpus@.len(),
            list@.len() == 10 + i,
            forall|k: int|
                0 <= k < 10 ==> (#[trigger] list@[k]).label@ == fixed_labels()[k] && list@[k].value@
                    == fixed_values(*report)[k],
            forall|k: int|
                0 <= k < i ==> (#[trigger] list@[10 + k]).label@ == gpu_label(k as nat)
                    && gpu_model_of(report.gpus@[k]@) == Some(list@[10 + k].value@),
        decreases report.gpus.len() - i,
    {
        let model = match gpu_model(report.gpus[i].as_str()) {
            Some(model) => model,
            None => {
                return Err(FactError::Malformed);
            },
        };
        let mut label = "GPU ".to_owned();
        push_decimal(&mut label, (i + 1) as u64);
        let ghost before = list@;
        list.push(SystemFact { label, value: model });
        proof {
            assert forall|k: int| 0 <= k < i + 1 implies (#[trigger] list@[10 + k]).label@
                == gpu_label(k as nat) && gpu_model_of(report.gpus@[k]@) == Some(
                list@[10 + k].value@,
            ) by {
                if k < i {
                    assert(list@[10 + k] == before[10 + k]);
                }
            }
            assert forall|k: int| 0 <= k < 10 implies (#[trigger] list@[k]).label@
                == fixed_labels()[k] && list@[k].value@ == fixed_values(*report)[k] by {
                assert(list@[k] == before[k]);
            }
        }
        i += 1;
    }
    Ok(list)
}

/// One row of the display: a line of the logo and, beside it, a line of
/// the report.
#[derive(Debug)]
pub struct Row {
    pub art: String,
    pub info: String,
}

/// The `i`-th entry of a column, or a blank where the column has ended.
pub open spec fn entry_or_blank(column: Seq<String>, i: int) -> Seq<char> {
    if 0 <= i < column.len() {
        column[i]@
    } else {
        seq![' ']
    }
}

/// The rows set the two columns side by side, line by line, until both
/// have ended; the shorter one is filled up with blanks.
pub open spec fn is_layout(rows: Seq<Row>, art: Seq<String>, info: Seq<String>) -> bool {
    &&& rows.len() == if art.len() >= info.len() {
        art.len()
    } else {
        info.len()
    }
    &&& forall|i: int|
        0 <= i < rows.len() ==> (#[trigger] rows[i]).art@ == entry_or_blank(art, i) && rows[i].info@
            == entry_or_blank(info, i)
}

/// The `i`-th entry of a column, or a blank.
fn entry_at(column: &Vec<String>, i: usize) -> (r: String)
    ensures
        r@ == entry_or_blank(column@, i as int),
{
    if i < column.len() {
        column[i].clone()
    } else {
        proof {
            reveal_strlit(" ");
        }
        assert(" "@ =~= seq![' ']);
        " ".to_owned()
    }
}

/// Sets the lines of a logo and the lines of a report side by side.
pub fn side_by_side(art: &Vec<String>, info: &Vec<String>) -> (rows: Vec<Row>)
    ensures
        is_layout(rows@, art@, info@),
{
    let count = if art.len() >= info.len() {
        art.len()
    } else {
        info.len()
    };
    let mut rows: Vec<Row> = Vec::new();
    let mut i: usize = 0;
    while i < count
        invariant
            i <= count,
            count == if art@.len() >= info@.len() {
                art@.len()
            } else {
                info@.len()
            },
            rows@.len() == i,
            forall|k: int|
                0 <= k < i ==> (#[trigger] rows@[k]).art@ == entry_or_blank(art@, k) && rows@[k].info@
                    == entry_or_blank(info@, k),
        decreases count - i,
    {
        rows.push(Row { art: entry_at(art, i), info: entry_at(info, i) });
        i += 1;
    }
    rows
}

} // verus!

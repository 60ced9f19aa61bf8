//! The hosted-file list and the HTML index page the local listener serves.

use vstd::prelude::*;

use crate::encoding::{spec_decimal, u64_to_decimal};
use crate::sizefmt::{format_file_size, spec_format_file_size};

verus! {

/// One file made available for download: a session-scoped id, the path on
/// disk, a display name and the size in bytes.
#[derive(Clone, Debug)]
pub struct HostedFile {
    pub id: u64,
    pub path: String,
    pub name: String,
    pub size: u64,
}

/// What the status endpoint and the host call report about a hosted file.
#[derive(Clone, Debug)]
pub struct HostedFileSummary {
    pub id: u64,
    pub name: String,
    pub size: u64,
}

/// Projects the hosted-file list onto its reportable fields.
pub fn summarize_files(files: &Vec<HostedFile>) -> (r: Vec<HostedFileSummary>)
    ensures
        r@.len() == files@.len(),
        forall|i: int|
            0 <= i < files@.len() ==> {
                &&& (#[trigger] r@[i]).id == files@[i].id
                &&& r@[i].name@ == files@[i].name@
                &&& r@[i].size == files@[i].size
            },
{
    let mut r: Vec<HostedFileSummary> = Vec::new();
    let mut i: usize = 0;
    while i < files.len()
        invariant
            i <= files@.len(),
            r@.len() == i,
            forall|k: int|
                0 <= k < i ==> {
                    &&& (#[trigger] r@[k]).id == files@[k].id
                    &&& r@[k].name@ == files@[k].name@
                    &&& r@[k].size == files@[k].size
                },
        decreases files@.len() - i,
    {
        let f = &files[i];
        r.push(HostedFileSummary { id: f.id, name: f.name.clone(), size: f.size });
        i = i + 1;
    }
    r
}

/// Text made safe for HTML element content: `&`, `<` and `>` replaced by
/// their character references, character by character.
pub open spec fn spec_html_escaped(s: Seq<char>) -> Seq<char>
    decreases s.len(),
{
    if s.len() == 0 {
        Seq::empty()
    } else {
        spec_html_escaped(s.drop_last()) + (if s.last() == '&' {
            "&amp;"@
        } else if s.last() == '<' {
            "&lt;"@
        } else if s.last() == '>' {
            "&gt;"@
        } else {
            seq![s.last()]
        })
    }
}

/// Relies on `html_escape::encode_text`: it escapes exactly `&`, `<` and
/// `>`, leaving every other character as it is.
#[verifier::external_body]
fn html_escape_text(s: &str) -> (r: String)
    ensures
        r@ == spec_html_escaped(s@),
{
    html_escape::encode_text(s).to_string()
}

/// The fixed page head, style and heading of the index.
pub open spec fn spec_index_header() -> Seq<char> {
    "<!DOCTYPE html><html lang=\"pt-BR\"><head><meta charset=\"utf-8\" /><meta name=\"viewport\" content=\"width=device-width, initial-scale=1\" /><title>FluxShare</title><style>body{font-family:-apple-system,BlinkMacSystemFont,'Segoe UI',sans-serif;background:#0f172a;color:#f8fafc;margin:0;padding:2.5rem;}.container{max-width:720px;margin:0 auto;}h1{font-size:2rem;margin-bottom:0.5rem;}p.subtitle{margin-top:0;margin-bottom:1.5rem;color:#94a3b8;}ul{list-style:none;padding:0;margin:0;display:flex;flex-direction:column;gap:0.75rem;}li{background:rgba(148,163,184,0.12);border:1px solid rgba(148,163,184,0.25);border-radius:0.75rem;padding:1rem;display:flex;justify-content:space-between;align-items:center;gap:1rem;}a{color:#38bdf8;text-decoration:none;font-weight:600;}a:hover{text-decoration:underline;}.empty{padding:1.5rem;border-radius:0.75rem;border:1px dashed rgba(148,163,184,0.4);color:#94a3b8;background:rgba(148,163,184,0.08);}.size{font-size:0.875rem;color:#cbd5f5;}</style></head><body><div class=\"container\"><h1>FluxShare</h1><p class=\"subtitle\">Arquivos hospedados via FluxShare.</p>"@
}

/// One list entry of the index: a download link under the file's id, the
/// escaped display name, and the human-readable size.
pub open spec fn spec_index_entry(f: HostedFileSummary) -> Seq<char> {
    "<li><a href=\"/download/"@ + spec_decimal(f.id as nat) + "\">"@ + spec_html_escaped(f.name@)
        + "</a><span class=\"size\">"@ + spec_html_escaped(spec_format_file_size(f.size))
        + "</span></li>"@
}

/// The concatenated list entries.
pub open spec fn spec_index_entries(files: Seq<HostedFileSummary>) -> Seq<char>
    decreases files.len(),
{
    if files.len() == 0 {
        Seq::empty()
    } else {
        spec_index_entries(files.drop_last()) + spec_index_entry(files.last())
    }
}

/// The whole index page for a hosted-file list.
pub open spec fn spec_index_page(files: Seq<HostedFileSummary>) -> Seq<char> {
    spec_index_header() + (if files.len() == 0 {
        "<div class=\"empty\">Nenhum arquivo hospedado.</div>"@
    } else {
        "<ul>"@ + spec_index_entries(files) + "</ul>"@
    }) + "</div></body></html>"@
}

/// Renders the index page listing the currently hosted files.
#[verifier::rlimit(100)]
#[verifier::spinoff_prover]
pub fn render_index_page(files: &Vec<HostedFileSummary>) -> (r: String)
    ensures
        r@ == spec_index_page(files@),
{
    let mut html = String::new();
    html.append(
        "<!DOCTYPE html><html lang=\"pt-BR\"><head><meta charset=\"utf-8\" /><meta name=\"viewport\" content=\"width=device-width, initial-scale=1\" /><title>FluxShare</title><style>body{font-family:-apple-system,BlinkMacSystemFont,'Segoe UI',sans-serif;background:#0f172a;color:#f8fafc;margin:0;padding:2.5rem;}.container{max-width:720px;margin:0 auto;}h1{font-size:2rem;margin-bottom:0.5rem;}p.subtitle{margin-top:0;margin-bottom:1.5rem;color:#94a3b8;}ul{list-style:none;padding:0;margin:0;display:flex;flex-direction:column;gap:0.75rem;}li{background:rgba(148,163,184,0.12);border:1px solid rgba(148,163,184,0.25);border-radius:0.75rem;padding:1rem;display:flex;justify-content:space-between;align-items:center;gap:1rem;}a{color:#38bdf8;text-decoration:none;font-weight:600;}a:hover{text-decoration:underline;}.empty{padding:1.5rem;border-radius:0.75rem;border:1px dashed rgba(148,163,184,0.4);color:#94a3b8;background:rgba(148,163,184,0.08);}.size{font-size:0.875rem;color:#cbd5f5;}</style></head><body><div class=\"container\"><h1>FluxShare</h1><p class=\"subtitle\">Arquivos hospedados via FluxShare.</p>",
    );
    if files.len() == 0 {
        html.append("<div class=\"empty\">Nenhum arquivo hospedado.</div>");
    } else {
        html.append("<ul>");
        let ghost mid = html@;
        let mut i: usize = 0;
        while i < files.len()
            invariant
                i <= files@.len(),
                html@ == mid + spec_index_entries(files@.take(i as int)),
            decreases files@.len() - i,
        {
            let f = &files[i];
            html.append("<li><a href=\"/download/");
            let id_text = u64_to_decimal(f.id);
            html.append(id_text.as_str());
            html.append("\">");
            let name_text = html_escape_text(f.name.as_str());
            html.append(name_text.as_str());
            html.append("</a><span class=\"size\">");
            let size_raw = format_file_size(f.size);
            let size_text = html_escape_text(size_raw.as_str());
            html.append(size_text.as_str());
            html.append("</span></li>");
            proof {
                assert(files@.take(i + 1 as int).drop_last() =~= files@.take(i as int));
                assert(files@.take(i + 1 as int).last() == files@[i as int]);
                assert(html@ =~= mid + spec_index_entries(files@.take(i + 1 as int)));
            }
            i = i + 1;
        }
        proof {
            assert(files@.take(files@.len() as int) =~= files@);
        }
        html.append("</ul>");
    }
    html.append("</div></body></html>");
    proof {
        assert(html@ =~= spec_index_page(files@));
    }
    html
}


/// The position of the first hosted file carrying `id`, if any — the
/// lookup a download request resolves its path through.
pub fn find_hosted_file(files: &Vec<HostedFile>, id: u64) -> (r: Option<usize>)
    ensures
        match r {
            Some(pos) => pos < files@.len() && files@[pos as int].id == id && (forall|k: int|
                0 <= k < pos ==> (#[trigger] files@[k]).id != id),
            None => forall|k: int| 0 <= k < files@.len() ==> (#[trigger] files@[k]).id != id,
        },
{
    let mut i: usize = 0;
    while i < files.len()
        invariant
            i <= files@.len(),
            forall|k: int| 0 <= k < i ==> (#[trigger] files@[k]).id != id,
        decreases files@.len() - i,
    {
        if files[i].id == id {
            return Some(i);
        }
        i = i + 1;
    }
    None
}

} // verus!

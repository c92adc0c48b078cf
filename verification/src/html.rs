//! Pieces of HTML.

use crate::text;
use vstd::prelude::*;

verus! {

/// What a character is written as in HTML.
pub open spec fn escaped_char(c: char) -> Seq<char> {
    if c == '&' {
        "&amp;"@
    } else if c == '<' {
        "&lt;"@
    } else if c == '>' {
        "&gt;"@
    } else if c == '"' {
        "&quot;"@
    } else if c == '\'' {
        "&#39;"@
    } else {
        seq![c]
    }
}

/// What a text is written as in HTML.
pub open spec fn escaped(s: Seq<char>) -> Seq<char>
    decreases s.len(),
{
    if s.len() == 0 {
        seq![]
    } else {
        escaped_char(s[0]) + escaped(s.drop_first())
    }
}

/// Texts are written one after the other.
proof fn lemma_escaped_push(s: Seq<char>, c: char)
    ensures
        escaped(s.push(c)) == escaped(s) + escaped_char(c),
    decreases s.len(),
{
    let t = s.push(c);
    if s.len() == 0 {
        assert(t.drop_first() =~= seq![]);
        assert(escaped(t.drop_first()) =~= seq![]);
        assert(escaped(t) =~= escaped(s) + escaped_char(c));
    } else {
        assert(t.drop_first() =~= s.drop_first().push(c));
        lemma_escaped_push(s.drop_first(), c);
        assert(escaped(t) =~= escaped(s) + escaped_char(c));
    }
}

/// What a text is written as in HTML.
pub fn html_escape(s: &str) -> (res: String)
    ensures
        res@ == escaped(s@),
{
    let v = text::chars_of(s);
    let mut out = String::new();
    let mut i: usize = 0;
    assert(out@ =~= escaped(v@.take(0)));
    while i < v.len()
        invariant
            i <= v@.len(),
            v@ == s@,
            out@ == escaped(v@.take(i as int)),
        decreases v@.len() - i,
    {
        let c = v[i];
        proof {
            assert(v@.take(i + 1) =~= v@.take(i as int).push(c));
            lemma_escaped_push(v@.take(i as int), c);
        }
        let ghost before = out@;
        match c {
            '&' => out.append("&amp;"),
            '<' => out.append("&lt;"),
            '>' => out.append("&gt;"),
            '"' => out.append("&quot;"),
            '\'' => out.append("&#39;"),
            _ => {
                out.push(c);
                assert(out@ =~= before + seq![c]);
            },
        }
        i = i + 1;
    }
    assert(v@.take(i as int) =~= v@);
    out
}

/// What an optional text is written as, or another text where there is none.
pub open spec fn escaped_or(o: Option<Seq<char>>, other: Seq<char>) -> Seq<char> {
    match o {
        Some(s) => escaped(s),
        None => other,
    }
}

/// What an optional text is written as, or another text where there is none.
pub fn html_escape_or(o: &Option<String>, other: &str) -> (res: String)
    ensures
        res@ == escaped_or(text::opt_text(*o), other@),
{
    match o {
        Some(s) => html_escape(s.as_str()),
        None => other.to_owned(),
    }
}

/// What stands before the title of a page.
pub const PAGE_TOP: &'static str = r#"<!doctype html>
<html lang="en">
<head>
<meta charset="utf-8">
<title>"#;

/// What stands between the title of a page and its body.
pub const PAGE_MIDDLE: &'static str = r#" · Kei</title>
<style>
  :root {
    --bg: #0f1115; --fg: #d6dae0; --muted: #7c8492; --accent: #6cb6ff;
    --ok: #3fb950; --warn: #d29922; --err: #f85149; --run: #6cb6ff;
    --panel: #161922; --border: #232936;
  }
  * { box-sizing: border-box; }
  html, body { background: var(--bg); color: var(--fg); }
  body { font: 14px/1.5 ui-sans-serif, system-ui, sans-serif;
         margin: 0; padding: 24px; max-width: 1100px; margin-inline: auto; }
  h1, h2 { margin: 0.6em 0 0.4em; font-weight: 600; }
  h1 { font-size: 1.4em; }
  h2 { font-size: 1.1em; border-bottom: 1px solid var(--border); padding-bottom: 4px; }
  a { color: var(--accent); text-decoration: none; }
  a:hover { text-decoration: underline; }
  code { font-family: ui-monospace, Menlo, Consolas, monospace; }
  .muted { color: var(--muted); }
  .nav { list-style: none; padding: 0; display: flex; gap: 16px; }
  table { width: 100%; border-collapse: collapse; }
  th, td { text-align: left; padding: 8px 10px; border-bottom: 1px solid var(--border); }
  th { color: var(--muted); font-weight: 500; font-size: 0.85em; text-transform: uppercase; letter-spacing: 0.05em; }
  .state { display: inline-block; padding: 2px 8px; border-radius: 999px; font-size: 0.8em; font-weight: 600; }
  .state.queued { background: #21262d; color: var(--muted); }
  .state.running { background: rgba(108,182,255,0.15); color: var(--run); }
  .state.success { background: rgba(63,185,80,0.15); color: var(--ok); }
  .state.failed { background: rgba(248,81,73,0.15); color: var(--err); }
  .state.canceled { background: rgba(210,153,34,0.15); color: var(--warn); }
  dl.meta { display: grid; grid-template-columns: max-content 1fr; gap: 4px 18px; margin: 12px 0; }
  dl.meta dt { color: var(--muted); }
  dl.meta dd { margin: 0; }
  pre.log { background: var(--panel); border: 1px solid var(--border);
             padding: 14px; border-radius: 8px; overflow-x: auto;
             font: 12.5px/1.55 ui-monospace, Menlo, Consolas, monospace;
             white-space: pre-wrap; word-break: break-word;
             max-height: 70vh; }
  .error { background: rgba(248,81,73,0.1); border: 1px solid var(--err);
            padding: 10px 14px; border-radius: 6px; margin: 12px 0; }
  form.login { max-width: 360px; display: grid; gap: 12px; }
  form.login label { display: grid; gap: 4px; color: var(--muted); }
  form.login input { width: 100%; background: var(--panel); color: var(--fg);
                      border: 1px solid var(--border); border-radius: 6px;
                      padding: 8px 10px; font: inherit; }
  form.login button { justify-self: start; background: var(--accent); color: #07111f;
                       border: 0; border-radius: 6px; padding: 8px 14px;
                       font: inherit; font-weight: 600; cursor: pointer; }
  .actions { margin: 14px 0; }
  button.danger { background: var(--err); color: #fff; border: 0; border-radius: 6px;
                   padding: 8px 14px; font: inherit; font-weight: 600; cursor: pointer; }
  button.danger:disabled { opacity: 0.65; cursor: wait; }
  ul.artifacts { padding-left: 18px; }
  a.raw { font-size: 0.75em; color: var(--muted); margin-left: 8px; }
  .diff { background: var(--panel); border: 1px solid var(--border);
           border-radius: 8px; overflow-x: auto;
           font: 12.5px/1.55 ui-monospace, Menlo, Consolas, monospace; }
  .diff > div { padding: 0 14px; white-space: pre-wrap; word-break: break-word; }
  .diff-add { background: rgba(63,185,80,0.18); color: #b4f1bd; }
  .diff-del { background: rgba(248,81,73,0.18); color: #fbb9b3; }
  .diff-hunk { background: rgba(108,182,255,0.10); color: var(--accent); }
  .diff-meta { color: var(--muted); }
  .diff-fileheader { color: var(--muted); font-weight: 600; }
  .diff-ctx { color: var(--fg); }
</style>
</head>
<body>
"#;

/// What stands behind the body of a page.
pub const PAGE_END: &'static str = r#"
</body>
</html>
"#;

/// A page with the given title and body.
pub open spec fn page_text(title: Seq<char>, body: Seq<char>) -> Seq<char> {
    PAGE_TOP@ + escaped(title) + PAGE_MIDDLE@ + body + PAGE_END@
}

/// A page with the given title and body.
pub fn page(title: &str, body: &str) -> (res: String)
    ensures
        res@ == page_text(title@, body@),
{
    let mut out = PAGE_TOP.to_owned();
    out.append(html_escape(title).as_str());
    out.append(PAGE_MIDDLE);
    out.append(body);
    out.append(PAGE_END);
    out
}

/// The script of a build's page before the identifier of the build.
pub const LIVE_TOP: &'static str = r#"<script>
(function() {
  const buildId = "#;

/// The script of a build's page behind the identifier of the build. It asks for the build every
/// two seconds while the build is live, and puts what has changed in place.
pub const LIVE_END: &'static str = r#";
  const token = new URLSearchParams(location.search).get('token');
  const NEAR_BOTTOM_PX = 24;
  const els = {
    state: document.getElementById('state'),
    step: document.getElementById('step'),
    dur: document.getElementById('dur'),
    log: document.getElementById('log'),
    logEmpty: document.getElementById('log-empty'),
    artifactsSection: document.getElementById('artifacts-section'),
    artifacts: document.getElementById('artifacts'),
    errorBox: document.getElementById('error-box'),
    errorText: document.getElementById('error-text'),
    stop: document.getElementById('stop-build'),
  };
  if (els.stop) {
    els.stop.addEventListener('click', async () => {
      els.stop.disabled = true;
      els.stop.textContent = 'Stopping...';
      let resp;
      try {
        resp = await fetch('/api/builds/' + buildId + '/stop', { method: 'POST' });
      } catch (e) {
        els.stop.disabled = false;
        els.stop.textContent = 'Stop build';
        return;
      }
      if (resp.status === 401) {
        location.href = '/login?next=' + encodeURIComponent(location.pathname + location.search);
        return;
      }
      if (!resp.ok) {
        els.stop.disabled = false;
        els.stop.textContent = 'Stop build';
        return;
      }
      tick();
    });
  }
  async function tick() {
    let resp;
    try {
      const suffix = token ? '?token=' + encodeURIComponent(token) : '';
      resp = await fetch('/api/builds/' + buildId + suffix, { cache: 'no-store' });
      if (!resp.ok) throw new Error('http ' + resp.status);
    } catch (e) {
      setTimeout(tick, 2000);
      return;
    }
    const b = await resp.json();
    els.state.textContent = b.state;
    els.state.className = 'state ' + b.state;
    els.step.textContent = b.current_step || '—';
    const started = new Date(b.started_at);
    const end = b.finished_at ? new Date(b.finished_at) : new Date();
    const secs = Math.max(0, Math.round((end - started) / 1000));
    els.dur.textContent = secs + (b.finished_at ? 's' : 's (running)');
    const log = b.log || '';
    if (log.length) {
      els.logEmpty.style.display = 'none';
      els.log.style.display = '';
      // Only auto-scroll if we were already near the bottom — preserves
      // user scroll position when they scroll up to read.
      const wasAtBottom =
        els.log.scrollHeight - els.log.scrollTop - els.log.clientHeight < NEAR_BOTTOM_PX;
      if (els.log.textContent !== log) {
        els.log.textContent = log;
        if (wasAtBottom) els.log.scrollTop = els.log.scrollHeight;
      }
    }
    if (b.artifacts && b.artifacts.length) {
      els.artifactsSection.style.display = '';
      els.artifacts.innerHTML = b.artifacts.map(a =>
        '<li><a href="' + a.url + '">' + a.path + '</a> <span class="muted">(' + a.size + ' B)</span></li>'
      ).join('');
    }
    if (b.error) {
      els.errorBox.style.display = '';
      els.errorText.textContent = b.error;
    }
    if (b.state === 'queued' || b.state === 'running') {
      setTimeout(tick, 2000);
    } else if (els.stop) {
      els.stop.remove();
    }
  }
  setTimeout(tick, 2000);
})();
</script>"#;

// ---------------------------------------------------------------------------------------------
// Laws
// ---------------------------------------------------------------------------------------------
/// What is written for a text holds none of the characters that begin or end a tag or the value
/// of an attribute.
pub proof fn law_escaped_is_inert(s: Seq<char>)
    ensures
        forall|i: int|
            0 <= i < escaped(s).len() ==> {
                let c = #[trigger] escaped(s)[i];
                c != '<' && c != '>' && c != '"' && c != '\''
            },
    decreases s.len(),
{
    if s.len() > 0 {
        reveal_strlit("&amp;");
        reveal_strlit("&lt;");
        reveal_strlit("&gt;");
        reveal_strlit("&quot;");
        reveal_strlit("&#39;");
        let e = escaped_char(s[0]);
        let rest = escaped(s.drop_first());
        law_escaped_is_inert(s.drop_first());
        assert forall|i: int| 0 <= i < escaped(s).len() implies {
            let c = #[trigger] escaped(s)[i];
            c != '<' && c != '>' && c != '"' && c != '\''
        } by {
            if i < e.len() {
                assert(escaped(s)[i] == e[i]);
            } else {
                assert(escaped(s)[i] == rest[i - e.len()]);
            }
        }
    }
}

/// The character that HTML begins with, and how many characters it takes.
pub open spec fn first_read(s: Seq<char>) -> (char, int) {
    if "&amp;"@.is_prefix_of(s) {
        ('&', 5)
    } else if "&lt;"@.is_prefix_of(s) {
        ('<', 4)
    } else if "&gt;"@.is_prefix_of(s) {
        ('>', 4)
    } else if "&quot;"@.is_prefix_of(s) {
        ('"', 6)
    } else if "&#39;"@.is_prefix_of(s) {
        ('\'', 5)
    } else {
        (s[0], 1)
    }
}

/// The text that a browser reads of HTML without tags.
pub open spec fn read(s: Seq<char>) -> Seq<char>
    decreases s.len(),
{
    let (c, n) = first_read(s);
    if s.len() == 0 || n > s.len() {
        seq![]
    } else {
        seq![c] + read(s.skip(n))
    }
}

/// A browser reads back every text as it was before it was written as HTML.
pub proof fn law_escaped_is_read_back(s: Seq<char>)
    ensures
        read(escaped(s)) == s,
    decreases s.len(),
{
    let t = escaped(s);
    reveal_strlit("&amp;");
    reveal_strlit("&lt;");
    reveal_strlit("&gt;");
    reveal_strlit("&quot;");
    reveal_strlit("&#39;");
    if s.len() > 0 {
        let c = s[0];
        let e = escaped_char(c);
        let rest = escaped(s.drop_first());
        law_escaped_is_read_back(s.drop_first());
        assert(t.take(e.len() as int) =~= e);
        assert(t.skip(e.len() as int) =~= rest);
        assert(first_read(t) == (c, e.len() as int)) by {
            assert(forall|k: int| 0 <= k < e.len() ==> t[k] == e[k]);
            lemma_prefix_at(t, "&amp;"@);
            lemma_prefix_at(t, "&lt;"@);
            lemma_prefix_at(t, "&gt;"@);
            lemma_prefix_at(t, "&quot;"@);
            lemma_prefix_at(t, "&#39;"@);
            assert(t[0] == e[0]);
            if e.len() > 1 {
                assert(t[1] == e[1]);
            }
            assert("&amp;"@[0] == '&' && "&amp;"@[1] == 'a');
            assert("&lt;"@[0] == '&' && "&lt;"@[1] == 'l');
            assert("&gt;"@[0] == '&' && "&gt;"@[1] == 'g');
            assert("&quot;"@[0] == '&' && "&quot;"@[1] == 'q');
            assert("&#39;"@[0] == '&' && "&#39;"@[1] == '#');
        }
        assert(read(t) =~= s);
    }
}

/// What a text that begins with `p` holds where.
proof fn lemma_prefix_at(t: Seq<char>, p: Seq<char>)
    ensures
        p.is_prefix_of(t) <==> p.len() <= t.len() && forall|k: int|
            0 <= k < p.len() ==> t[k] == p[k],
{
    if p.is_prefix_of(t) {
        assert forall|k: int| 0 <= k < p.len() implies t[k] == p[k] by {
            assert(t.subrange(0, p.len() as int)[k] == p[k]);
        }
    }
    if p.len() <= t.len() && forall|k: int| 0 <= k < p.len() ==> t[k] == p[k] {
        assert(t.subrange(0, p.len() as int) =~= p);
    }
}

/// Texts are written one after the other, character by character.
pub proof fn law_escaped_sum(a: Seq<char>, b: Seq<char>)
    ensures
        escaped(a + b) == escaped(a) + escaped(b),
    decreases a.len(),
{
    if a.len() == 0 {
        assert(a + b =~= b);
        assert(escaped(a + b) =~= escaped(a) + escaped(b));
    } else {
        assert((a + b).drop_first() =~= a.drop_first() + b);
        law_escaped_sum(a.drop_first(), b);
        assert(escaped(a + b) =~= escaped(a) + escaped(b));
    }
}

/// Texts without characters that mean something in HTML are written as they are.
pub proof fn law_plain_text_is_kept(s: Seq<char>)
    requires
        forall|i: int|
            0 <= i < s.len() ==> (#[trigger] s[i]) != '&' && s[i] != '<' && s[i] != '>' && s[i] != '"'
                && s[i] != '\'',
    ensures
        escaped(s) == s,
    decreases s.len(),
{
    if s.len() > 0 {
        let t = s.drop_first();
        assert forall|i: int| 0 <= i < t.len() implies (#[trigger] t[i]) != '&' && t[i] != '<' && t[i]
            != '>' && t[i] != '"' && t[i] != '\'' by {
            assert(t[i] == s[i + 1]);
        }
        law_plain_text_is_kept(t);
        assert(escaped(s) =~= s);
    }
}

/// A page holds its title, escaped, and behind it its body as it is.
pub proof fn law_page_holds_title_and_body(title: Seq<char>, body: Seq<char>)
    ensures
        text::holds_in_order(page_text(title, body), escaped(title), body),
{
    broadcast use {text::lemma_holds_self, text::lemma_holds_sum};

    let front = PAGE_TOP@ + escaped(title);
    let behind = PAGE_MIDDLE@ + body + PAGE_END@;
    assert(text::holds_text(front, escaped(title)));
    assert(text::holds_text(behind, body));
    text::lemma_in_order_sum(front, behind, escaped(title), body);
    assert(page_text(title, body) =~= front + behind);
}

/// An optional text is written as it is written by itself, and the other text where there is none.
pub proof fn law_optional_text(s: Seq<char>, other: Seq<char>)
    ensures
        read(escaped_or(Some(s), other)) == s,
        escaped_or(None, other) == other,
{
    law_escaped_is_read_back(s);
}

} // verus!

//! Alert fan-out: render the payload for a divergent path and plan its
//! delivery to every enabled sink. The deliveries themselves — syslog,
//! HTTP, a child process, a native plugin — are I/O and happen outside
//! the library; the library decides what is sent and to whom, and the
//! plan never depends on how an earlier delivery went.

use vstd::prelude::*;
use crate::config::{AlertsConfig, AlertsView};
use crate::json::{quoted, push_quoted};
use crate::text::chars_to_string;

verus! {

/// One alert destination.
#[derive(Clone, Copy, Debug, PartialEq, Eq, Structural)]
pub enum Sink {
    Syslog,
    Webhook,
    Script,
    Plugin,
}

/// The default payload: a JSON object with the keys `path`, `old`, `new`
/// in that order, standard escaping, no added whitespace.
pub open spec fn default_payload_text(p: Seq<char>, o: Seq<char>, n: Seq<char>) -> Seq<char> {
    seq!['{'] + quoted("path"@) + seq![':'] + quoted(p) + seq![','] + quoted("old"@) + seq![':']
        + quoted(o) + seq![','] + quoted("new"@) + seq![':'] + quoted(n) + seq!['}']
}

/// Build the default payload for an alert.
pub fn default_payload(path: &String, old: &String, new: &String) -> (r: String)
    ensures
        r@ == default_payload_text(path@, old@, new@),
{
    let mut out: Vec<char> = Vec::new();
    out.push('{');
    push_quoted(&mut out, &String::from_str("path"));
    out.push(':');
    push_quoted(&mut out, path);
    out.push(',');
    push_quoted(&mut out, &String::from_str("old"));
    out.push(':');
    push_quoted(&mut out, old);
    out.push(',');
    push_quoted(&mut out, &String::from_str("new"));
    out.push(':');
    push_quoted(&mut out, new);
    out.push('}');
    proof {
        assert(out@ =~= default_payload_text(path@, old@, new@));
    }
    chars_to_string(&out)
}

/// Relies on liquid's `ParserBuilder::with_stdlib`, `Parser::parse` and
/// `Template::render`: compile the configured template and render it with
/// the variables `path`, `old` and `new`; `None` on any failure. Nothing
/// is promised of the rendered text: liquid's stdlib includes filters
/// (`date` with `"now"`) whose output depends on the clock, so the result
/// is not a function of the arguments. The caller falls back to the
/// default payload on `None`.
#[verifier::external_body]
fn render_template(tmpl: &str, path: &str, old: &str, new: &str) -> (r: Option<String>) {
    let parser = liquid::ParserBuilder::with_stdlib().build().ok()?;
    let template = parser.parse(tmpl).ok()?;
    let mut globals = liquid::Object::new();
    globals.insert("path".into(), liquid::model::Value::scalar(path.to_owned()));
    globals.insert("old".into(), liquid::model::Value::scalar(old.to_owned()));
    globals.insert("new".into(), liquid::model::Value::scalar(new.to_owned()));
    template.render(&globals).ok()
}

/// What the payload is once the outcome of rendering is known: the
/// rendered text when rendering succeeded, the default payload otherwise.
pub fn choose_payload(rendered: Option<String>, path: &String, old: &String, new: &String) -> (r:
    String)
    ensures
        match rendered {
            Some(s) => r@ == s@,
            None => r@ == default_payload_text(path@, old@, new@),
        },
{
    match rendered {
        Some(s) => s,
        None => default_payload(path, old, new),
    }
}

/// The payload for an alert: the configured template rendered with
/// `path`, `old`, `new`, or — with no template, or when parsing or
/// rendering fails — the default payload.
pub fn build_payload(template: &Option<String>, path: &String, old: &String, new: &String) -> (r:
    String)
    ensures
        template is None ==> r@ == default_payload_text(path@, old@, new@),
{
    let rendered = match template {
        Some(t) => render_template(t.as_str(), path.as_str(), old.as_str(), new.as_str()),
        None => None,
    };
    choose_payload(rendered, path, old, new)
}

/// The one line the syslog sink writes for an alert.
pub fn syslog_line(payload: &String) -> (r: String)
    ensures
        r@ == "Integrity change: "@ + payload@,
{
    let mut r = String::from_str("Integrity change: ");
    r.append(payload.as_str());
    r
}

/// The sinks an alert goes to, in delivery order: syslog, webhook,
/// script, plugin — each exactly when its configuration enables it.
pub open spec fn enabled_sinks_spec(cfg: AlertsView) -> Seq<Sink> {
    (if cfg.use_syslog {
        seq![Sink::Syslog]
    } else {
        Seq::empty()
    }) + (if cfg.webhook_url is Some {
        seq![Sink::Webhook]
    } else {
        Seq::empty()
    }) + (if cfg.script_path is Some {
        seq![Sink::Script]
    } else {
        Seq::empty()
    }) + (if cfg.plugin_path is Some {
        seq![Sink::Plugin]
    } else {
        Seq::empty()
    })
}

/// The delivery plan for one alert under the given sink configuration.
pub fn enabled_sinks(cfg: &AlertsConfig) -> (r: Vec<Sink>)
    ensures
        r@ =~= enabled_sinks_spec(cfg@),
{
    let mut r: Vec<Sink> = Vec::new();
    if cfg.use_syslog {
        r.push(Sink::Syslog);
    }
    if cfg.webhook_url.is_some() {
        r.push(Sink::Webhook);
    }
    if cfg.script_path.is_some() {
        r.push(Sink::Script);
    }
    if cfg.plugin_path.is_some() {
        r.push(Sink::Plugin);
    }
    proof {
        assert(r@ =~= enabled_sinks_spec(cfg@));
    }
    r
}

/// One alert's fan-out in progress: the fixed plan and how far it has
/// got. The next sink to attempt never depends on how earlier deliveries
/// went — `next_sink` takes no outcome — so a failing sink cannot
/// prevent the rest from being attempted.
pub struct Dispatch {
    plan: Vec<Sink>,
    next: usize,
}

impl Dispatch {
    pub closed spec fn plan_view(&self) -> Seq<Sink> {
        self.plan@
    }

    pub closed spec fn pos(&self) -> int {
        self.next as int
    }

    /// Start the fan-out of one alert.
    pub fn new(cfg: &AlertsConfig) -> (d: Dispatch)
        ensures
            d.plan_view() =~= enabled_sinks_spec(cfg@),
            d.pos() == 0,
    {
        Dispatch { plan: enabled_sinks(cfg), next: 0 }
    }

    /// The next sink to attempt, whatever became of the previous one;
    /// `None` once every enabled sink has been handed out.
    pub fn next_sink(&mut self) -> (r: Option<Sink>)
        ensures
            final(self).plan_view() == old(self).plan_view(),
            match r {
                Some(s) => {
                    &&& old(self).pos() < old(self).plan_view().len()
                    &&& s == old(self).plan_view()[old(self).pos()]
                    &&& final(self).pos() == old(self).pos() + 1
                },
                None => {
                    &&& old(self).pos() >= old(self).plan_view().len()
                    &&& final(self).pos() == old(self).pos()
                },
            },
    {
        if self.next < self.plan.len() {
            let s = self.plan[self.next];
            self.next = self.next + 1;
            Some(s)
        } else {
            None
        }
    }
}

/// Law: the fan-out attempts every enabled sink and no other. Each sink
/// is in the plan exactly when its configuration enables it, the plan is
/// a function of the configuration alone, and `next_sink` walks it
/// without looking at delivery outcomes — so a failure in one sink never
/// withholds another.
pub proof fn lemma_sink_independence(cfg: AlertsView)
    ensures
        enabled_sinks_spec(cfg).contains(Sink::Syslog) <==> cfg.use_syslog,
        enabled_sinks_spec(cfg).contains(Sink::Webhook) <==> cfg.webhook_url is Some,
        enabled_sinks_spec(cfg).contains(Sink::Script) <==> cfg.script_path is Some,
        enabled_sinks_spec(cfg).contains(Sink::Plugin) <==> cfg.plugin_path is Some,
{
    let plan = enabled_sinks_spec(cfg);
    if cfg.use_syslog {
        assert(plan[0] == Sink::Syslog);
        assert(plan.contains(Sink::Syslog));
    }
    if cfg.webhook_url is Some {
        let i = if cfg.use_syslog {
            1int
        } else {
            0int
        };
        assert(plan[i] == Sink::Webhook);
        assert(plan.contains(Sink::Webhook));
    }
    if cfg.script_path is Some {
        let i = (if cfg.use_syslog {
            1int
        } else {
            0int
        }) + (if cfg.webhook_url is Some {
            1int
        } else {
            0int
        });
        assert(plan[i] == Sink::Script);
        assert(plan.contains(Sink::Script));
    }
    if cfg.plugin_path is Some {
        assert(plan.last() == Sink::Plugin);
        assert(plan.contains(Sink::Plugin));
    }
}

} // verus!

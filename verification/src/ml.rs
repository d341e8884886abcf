//! Rule-based title synthesis and post-processing.
//!
//! The generator is a fixed rule table: an action and a domain are chosen
//! from the context, a template is selected by the deterministic
//! temperature index, and the result is truncated, ticket-prefixed,
//! capitalized and capped at 72 characters.

use vstd::prelude::*;
use vstd::string::StrSliceExecFns;

use crate::context::{
    change_type_tag, generic_text, is_generic_commit_spec, join_strings, join_with, CleanContext,
};
use crate::error::Error;
use crate::text::{
    all_digit_chars, all_digits_exec, append_chars, capitalize_chars, capitalize_spec,
    chars_to_string, contains_seq, contains_str, lower_chars, lower_seq, split_ws, split_ws_tokens,
    starts_with, str_to_chars, string_eq_lit, tidy, tidy_chars, upper_char_spec, ScrubMode,
};
use crate::GeneratorConfig;

verus! {

/// The fixed set of supported model names.
pub open spec fn model_supported(n: Seq<char>) -> bool {
    ||| n == "tiny-llama"@
    ||| n == "phi-2"@
    ||| n == "gemma-2b"@
    ||| n == "llama-2-7b"@
}

/// The deterministic template index for a temperature given in tenths:
/// the floor of temperature times the template count, clamped to the
/// valid range.
pub open spec fn template_index_spec(tenths: int, count: int) -> int {
    let raw = (tenths * count) / 10;
    if raw > count - 1 {
        count - 1
    } else {
        raw
    }
}

/// Select a template index from the temperature. The index never exceeds
/// `count - 1`, even at the maximum temperature.
pub fn template_index(tenths: u8, count: usize) -> (idx: usize)
    requires
        1 <= count <= 1000,
        tenths <= 10,
    ensures
        idx == template_index_spec(tenths as int, count as int),
        idx < count,
{
    proof {
        assert((tenths as int) * (count as int) <= 10 * 1000) by (nonlinear_arith)
            requires
                tenths <= 10,
                count <= 1000,
        ;
    }
    let raw = (tenths as usize * count) / 10;
    if raw > count - 1 {
        count - 1
    } else {
        raw
    }
}

/// The action word: the context's change type when present, else inferred
/// from the concatenated commits by a fixed priority of keywords.
pub open spec fn determine_action_spec(c: CleanContext) -> Seq<char> {
    match c.change_type {
        Some(ct) => change_type_tag(ct),
        None => {
            let all = lower_seq(join_with(c.commits.deep_view(), " "@));
            if contains_seq(all, "fix"@) || contains_seq(all, "bug"@) || contains_seq(
                all,
                "issue"@,
            ) {
                "fix"@
            } else if contains_seq(all, "add"@) || contains_seq(all, "implement"@) || contains_seq(
                all,
                "feature"@,
            ) {
                "feature"@
            } else if contains_seq(all, "refactor"@) || contains_seq(all, "improve"@) {
                "refactor"@
            } else {
                "update"@
            }
        },
    }
}

/// The lowercased text the domain scan looks at: description, a space,
/// and the commits joined by spaces.
pub open spec fn domain_text(c: CleanContext) -> Seq<char> {
    let d = match c.description {
        Some(d) => d@,
        None => Seq::<char>::empty(),
    };
    lower_seq(d + " "@ + join_with(c.commits.deep_view(), " "@))
}

/// The first word longer than three characters that is not all digits,
/// or empty when there is none.
pub open spec fn first_long_word(ts: Seq<Seq<char>>) -> Seq<char>
    decreases ts.len(),
{
    if ts.len() == 0 {
        Seq::empty()
    } else if ts[0].len() > 3 && !all_digit_chars(ts[0]) {
        ts[0]
    } else {
        first_long_word(ts.drop_first())
    }
}

/// The domain key: the first entry of the fixed domain table, in
/// declaration order, whose keyword list has a substring match; else the
/// first meaningful word of the text; else empty.
pub open spec fn extract_domain_spec(c: CleanContext) -> Seq<char> {
    let all = domain_text(c);
    if contains_seq(all, "authentication"@) || contains_seq(all, "authorization"@) || contains_seq(
        all,
        "login"@,
    ) || contains_seq(all, "security"@) {
        "auth"@
    } else if contains_seq(all, "cryptocurrency"@) || contains_seq(all, "blockchain"@)
        || contains_seq(all, "wallet"@) {
        "crypto"@
    } else if contains_seq(all, "api"@) || contains_seq(all, "endpoint"@) || contains_seq(
        all,
        "service"@,
    ) {
        "api"@
    } else {
        first_long_word(split_ws(all))
    }
}

/// The candidate subjects: the description when present, then the commits.
pub open spec fn subjects_of(c: CleanContext) -> Seq<Seq<char>> {
    (match c.description {
        Some(d) => seq![d@],
        None => Seq::<Seq<char>>::empty(),
    }) + c.commits.deep_view()
}

/// The longest candidate by character count; on ties the later one.
pub open spec fn longest_last(ts: Seq<Seq<char>>) -> Seq<char>
    decreases ts.len(),
{
    if ts.len() == 0 {
        Seq::empty()
    } else if ts.len() == 1 {
        ts[0]
    } else {
        let rest = longest_last(ts.drop_first());
        if ts[0].len() > rest.len() {
            ts[0]
        } else {
            rest
        }
    }
}

/// The main subject: the longest of description and commits, later
/// entries winning ties; `changes` when there is nothing to pick from.
pub open spec fn main_subject_spec(c: CleanContext) -> Seq<char> {
    if subjects_of(c).len() == 0 {
        "changes"@
    } else {
        longest_last(subjects_of(c))
    }
}

/// The raw synthesized title, before the article cleanup: a filled
/// template when the action has one, else the fallback composition.
pub open spec fn raw_title_spec(c: CleanContext, tenths: int) -> Seq<char> {
    let action = determine_action_spec(c);
    let domain = extract_domain_spec(c);
    let subject = main_subject_spec(c);
    if action == "fix"@ {
        let i = template_index_spec(tenths, 3);
        if i == 0 {
            "Fix "@ + domain + " "@ + subject
        } else if i == 1 {
            "Resolve "@ + domain + " "@ + subject
        } else {
            "Correct "@ + domain + " "@ + subject
        }
    } else if action == "feature"@ {
        let i = template_index_spec(tenths, 3);
        if i == 0 {
            "Add "@ + domain + " "@ + subject
        } else if i == 1 {
            "Implement "@ + domain + " "@ + subject
        } else {
            "Introduce "@ + domain + " "@ + subject
        }
    } else if action == "refactor"@ {
        let i = template_index_spec(tenths, 3);
        if i == 0 {
            "Refactor "@ + domain + " "@ + subject
        } else if i == 1 {
            "Improve "@ + domain + " "@ + subject
        } else {
            "Optimize "@ + domain + " "@ + subject
        }
    } else if domain.len() == 0 {
        subject
    } else {
        capitalize_spec(action) + " "@ + subject
    }
}

/// The synthesized title: the raw title with standalone articles removed
/// and whitespace collapsed.
pub open spec fn pattern_title_spec(c: CleanContext, tenths: int) -> Seq<char> {
    tidy(ScrubMode::Articles, raw_title_spec(c, tenths))
}

/// Pattern-based title generator over the fixed rule tables.
pub struct PatternMatcher {}

impl PatternMatcher {
    /// The fixed rule tables always construct.
    pub fn new() -> (r: Result<PatternMatcher, Error>)
        ensures
            r is Ok,
    {
        Ok(PatternMatcher {  })
    }

    /// The action word for this context.
    pub fn determine_action(&self, context: &CleanContext) -> (r: String)
        ensures
            r@ == determine_action_spec(*context),
    {
        match &context.change_type {
            Some(ct) => ct.as_str().to_owned(),
            None => {
                let joined = join_strings(&context.commits, " ");
                let v = str_to_chars(joined.as_str());
                let all = lower_chars(&v);
                if contains_str(&all, "fix") || contains_str(&all, "bug") || contains_str(
                    &all,
                    "issue",
                ) {
                    "fix".to_owned()
                } else if contains_str(&all, "add") || contains_str(&all, "implement")
                    || contains_str(&all, "feature") {
                    "feature".to_owned()
                } else if contains_str(&all, "refactor") || contains_str(&all, "improve") {
                    "refactor".to_owned()
                } else {
                    "update".to_owned()
                }
            },
        }
    }

    /// The domain key for this context.
    #[verifier::loop_isolation(false)]
    pub fn extract_domain(&self, context: &CleanContext) -> (r: String)
        ensures
            r@ == extract_domain_spec(*context),
    {
        let mut text = match &context.description {
            Some(d) => d.clone(),
            None => String::new(),
        };
        text.append(" ");
        let joined = join_strings(&context.commits, " ");
        text.append(joined.as_str());
        let v = str_to_chars(text.as_str());
        let all = lower_chars(&v);
        assert(all@ == domain_text(*context));
        if contains_str(&all, "authentication") || contains_str(&all, "authorization")
            || contains_str(&all, "login") || contains_str(&all, "security") {
            return "auth".to_owned();
        }
        if contains_str(&all, "cryptocurrency") || contains_str(&all, "blockchain")
            || contains_str(&all, "wallet") {
            return "crypto".to_owned();
        }
        if contains_str(&all, "api") || contains_str(&all, "endpoint") || contains_str(
            &all,
            "service",
        ) {
            return "api".to_owned();
        }
        let words = split_ws_tokens(&all);
        let ghost ws = split_ws(all@);
        let n = words.len();
        let mut k: usize = 0;
        assert(ws.skip(0) =~~= ws);
        while k < n
            invariant
                k <= n,
                n == words@.len(),
                words.deep_view() == ws,
                first_long_word(ws) == first_long_word(ws.skip(k as int)),
            decreases n - k,
        {
            proof {
                let t = ws.skip(k as int);
                assert(t[0] == ws[k as int]);
                assert(t.drop_first() =~~= ws.skip(k + 1));
            }
            let w = &words[k];
            assert(w@ == ws[k as int]);
            if w.len() > 3 && !all_digits_exec(w) {
                assert(first_long_word(ws.skip(k as int)) == ws[k as int]);
                return chars_to_string(w);
            }
            k = k + 1;
        }
        proof {
            assert(ws.skip(n as int) =~~= Seq::<Seq<char>>::empty());
        }
        String::new()
    }

    /// The most descriptive subject in the context.
    pub fn extract_main_subject(&self, context: &CleanContext) -> (r: String)
        ensures
            r@ == main_subject_spec(*context),
    {
        let mut subjects: Vec<String> = Vec::new();
        match &context.description {
            Some(d) => {
                subjects.push(d.clone());
            },
            None => {},
        }
        let ghost head: Seq<Seq<char>> = match &context.description {
            Some(d) => seq![d@],
            None => Seq::<Seq<char>>::empty(),
        };
        assert(subjects.deep_view() =~~= head + context.commits.deep_view().subrange(0, 0));
        let m = context.commits.len();
        let mut j: usize = 0;
        while j < m
            invariant
                j <= m,
                m == context.commits@.len(),
                head == (match context.description {
                    Some(d) => seq![d@],
                    None => Seq::<Seq<char>>::empty(),
                }),
                subjects.deep_view() == head + context.commits.deep_view().subrange(0, j as int),
            decreases m - j,
        {
            let ghost pre = subjects.deep_view();
            subjects.push(context.commits[j].clone());
            proof {
                assert(subjects.deep_view() =~~= pre.push(context.commits.deep_view()[j as int]));
                assert(subjects.deep_view() =~~= head + context.commits.deep_view().subrange(
                    0,
                    j + 1,
                ));
            }
            j = j + 1;
        }
        assert(context.commits.deep_view().subrange(0, m as int) =~~= context.commits.deep_view());
        assert(subjects.deep_view() =~~= subjects_of(*context));
        let n = subjects.len();
        if n == 0 {
            return "changes".to_owned();
        }
        let ghost ts = subjects_of(*context);
        let mut best = subjects[n - 1].clone();
        assert(ts.skip(n - 1) =~~= seq![ts[n - 1]]);
        assert(longest_last(ts.skip(n - 1)) == ts[n - 1]);
        let mut i: usize = n - 1;
        while i > 0
            invariant
                i < n,
                n == ts.len(),
                subjects.deep_view() == ts,
                n == subjects@.len(),
                best@ == longest_last(ts.skip(i as int)),
            decreases i,
        {
            i = i - 1;
            proof {
                let t = ts.skip(i as int);
                assert(t[0] == ts[i as int]);
                assert(t.drop_first() =~~= ts.skip(i + 1));
                assert(t.len() >= 2);
            }
            let cand = &subjects[i];
            if cand.as_str().unicode_len() > best.as_str().unicode_len() {
                best = cand.clone();
            }
        }
        assert(ts.skip(0) =~~= ts);
        best
    }

    /// Strip standalone articles and collapse whitespace.
    pub fn clean_title(&self, title: &str) -> (r: String)
        ensures
            r@ == tidy(ScrubMode::Articles, title@),
    {
        let v = str_to_chars(title);
        let t = tidy_chars(ScrubMode::Articles, &v);
        chars_to_string(&t)
    }

    /// Uppercase the first character.
    pub fn capitalize_first(&self, s: &str) -> (r: String)
        ensures
            r@ == capitalize_spec(s@),
    {
        let mut v = str_to_chars(s);
        capitalize_chars(&mut v);
        chars_to_string(&v)
    }

    /// Synthesize the raw title for this context and configuration.
    pub fn generate_title(&self, context: &CleanContext, config: &GeneratorConfig) -> (r: Result<
        String,
        Error,
    >)
        requires
            config.temperature_tenths <= 10,
        ensures
            r is Ok,
            r.unwrap()@ == pattern_title_spec(*context, config.temperature_tenths as int),
    {
        let action = self.determine_action(context);
        let domain = self.extract_domain(context);
        let subject = self.extract_main_subject(context);
        let title = if string_eq_lit(&action, "fix") {
            let i = template_index(config.temperature_tenths, 3);
            if i == 0 {
                self.fill_template("Fix ", &domain, &subject)
            } else if i == 1 {
                self.fill_template("Resolve ", &domain, &subject)
            } else {
                self.fill_template("Correct ", &domain, &subject)
            }
        } else if string_eq_lit(&action, "feature") {
            let i = template_index(config.temperature_tenths, 3);
            if i == 0 {
                self.fill_template("Add ", &domain, &subject)
            } else if i == 1 {
                self.fill_template("Implement ", &domain, &subject)
            } else {
                self.fill_template("Introduce ", &domain, &subject)
            }
        } else if string_eq_lit(&action, "refactor") {
            let i = template_index(config.temperature_tenths, 3);
            if i == 0 {
                self.fill_template("Refactor ", &domain, &subject)
            } else if i == 1 {
                self.fill_template("Improve ", &domain, &subject)
            } else {
                self.fill_template("Optimize ", &domain, &subject)
            }
        } else if domain.as_str().is_empty() {
            subject
        } else {
            let mut t = self.capitalize_first(action.as_str());
            t.append(" ");
            t.append(subject.as_str());
            t
        };
        Ok(self.clean_title(title.as_str()))
    }

    /// A template head filled with domain and subject.
    fn fill_template(&self, head: &str, domain: &String, subject: &String) -> (r: String)
        ensures
            r@ == head@ + domain@ + " "@ + subject@,
    {
        let mut r = head.to_owned();
        r.append(domain.as_str());
        r.append(" ");
        r.append(subject.as_str());
        r
    }
}

/// The title truncated to `keep` characters with an ellipsis appended.
pub open spec fn truncated(t: Seq<char>, keep: int) -> Seq<char> {
    t.subrange(0, keep) + "..."@
}

/// A title is too generic exactly when a commit string would be: the same
/// word test applied to the title's words.
pub open spec fn is_generic_title_spec(t: Seq<char>) -> bool {
    is_generic_commit_spec(t)
}

/// What post-processing computes: truncate to the configured maximum,
/// prepend the ticket when it is absent from the title and the title is
/// not generic, capitalize, and enforce the hard 72-character cap.
pub open spec fn post_process_spec(t: Seq<char>, ticket: Option<Seq<char>>, max_length: int) -> Seq<
    char,
> {
    let t1 = if t.len() > max_length {
        truncated(t, if max_length >= 3 { max_length - 3 } else { 0 })
    } else {
        t
    };
    let t2 = match ticket {
        Some(k) => if !contains_seq(t1, k) && !is_generic_title_spec(t1) {
            k + ": "@ + t1
        } else {
            t1
        },
        None => t1,
    };
    let t3 = capitalize_spec(t2);
    if t3.len() > 72 {
        truncated(t3, 69)
    } else {
        t3
    }
}

/// The final title for a context under a configuration: the synthesized
/// title, post-processed.
pub open spec fn title_spec(c: CleanContext, cfg: GeneratorConfig) -> Seq<char> {
    post_process_spec(
        pattern_title_spec(c, cfg.temperature_tenths as int),
        c.ticket.deep_view(),
        cfg.max_length as int,
    )
}

/// A generator configuration the validation accepts.
pub open spec fn config_valid(c: GeneratorConfig) -> bool {
    &&& 1 <= c.temperature_tenths <= 10
    &&& c.max_length >= 1
    &&& model_supported(c.model_name@)
}

/// Rule-based title generator.
pub struct TitleGenerator {
    pub config: GeneratorConfig,
    pub patterns: PatternMatcher,
}

impl TitleGenerator {
    /// Validate the configuration: the temperature must lie in the unit
    /// range, the maximum length must be positive, and the model must be
    /// one of the supported names. Each error names the offending value,
    /// and validation succeeds exactly on valid configurations.
    pub fn new(config: GeneratorConfig) -> (r: Result<TitleGenerator, Error>)
        ensures
            config.temperature_tenths < 1 || config.temperature_tenths > 10 ==> (r matches Err(
                Error::InvalidTemperature { tenths },
            ) && tenths == config.temperature_tenths),
            1 <= config.temperature_tenths <= 10 && config.max_length == 0 ==> (r matches Err(
                Error::InvalidMaxLength { length },
            ) && length == 0),
            1 <= config.temperature_tenths <= 10 && config.max_length >= 1 && !model_supported(
                config.model_name@,
            ) ==> (r matches Err(Error::UnsupportedModel { name }) && name@ == config.model_name@),
            config_valid(config) ==> (r matches Ok(g) && g.config.model_name@
                == config.model_name@ && g.config.temperature_tenths == config.temperature_tenths
                && g.config.max_length == config.max_length && g.config.max_commits
                == config.max_commits && g.config.verbose == config.verbose && config_valid(
                g.config,
            )),
    {
        if config.temperature_tenths < 1 || config.temperature_tenths > 10 {
            return Err(Error::InvalidTemperature { tenths: config.temperature_tenths });
        }
        if config.max_length == 0 {
            return Err(Error::InvalidMaxLength { length: config.max_length });
        }
        let supported = string_eq_lit(&config.model_name, "tiny-llama") || string_eq_lit(
            &config.model_name,
            "phi-2",
        ) || string_eq_lit(&config.model_name, "gemma-2b") || string_eq_lit(
            &config.model_name,
            "llama-2-7b",
        );
        if !supported {
            return Err(Error::UnsupportedModel { name: config.model_name });
        }
        let patterns = match PatternMatcher::new() {
            Ok(p) => p,
            Err(e) => {
                return Err(e);
            },
        };
        Ok(TitleGenerator { config, patterns })
    }

    /// Generate a title for the given context. The result never exceeds
    /// 72 characters.
    pub fn generate_title(&self, context: &CleanContext) -> (r: Result<String, Error>)
        requires
            config_valid(self.config),
        ensures
            r matches Ok(t) && t@ == title_spec(*context, self.config),
            r matches Ok(t) && t@.len() <= 72,
    {
        let title = match self.patterns.generate_title(context, &self.config) {
            Ok(t) => t,
            Err(e) => {
                return Err(e);
            },
        };
        self.post_process_title(title, context)
    }

    /// Post-process a raw title: truncate, inject the ticket, capitalize
    /// and enforce the hard cap.
    pub fn post_process_title(&self, title: String, context: &CleanContext) -> (r: Result<
        String,
        Error,
    >)
        ensures
            r matches Ok(t) && t@ == post_process_spec(
                title@,
                context.ticket.deep_view(),
                self.config.max_length as int,
            ),
            r matches Ok(t) && t@.len() <= 72,
    {
        proof {
            reveal_strlit("...");
        }
        let max = self.config.max_length;
        let v = str_to_chars(title.as_str());
        let dots = str_to_chars("...");
        let t1: Vec<char> = if v.len() > max {
            let keep: usize = if max >= 3 {
                max - 3
            } else {
                0
            };
            let mut p: Vec<char> = Vec::new();
            let mut k: usize = 0;
            while k < keep
                invariant
                    k <= keep <= v@.len(),
                    p@ == v@.subrange(0, k as int),
                decreases keep - k,
            {
                p.push(v[k]);
                assert(p@ =~= v@.subrange(0, k + 1));
                k = k + 1;
            }
            append_chars(&mut p, &dots);
            p
        } else {
            v
        };
        let t2: Vec<char> = match &context.ticket {
            Some(k) => {
                if !contains_str(&t1, k.as_str()) && !self.is_generic_title(&t1) {
                    let mut p = str_to_chars(k.as_str());
                    let sep = str_to_chars(": ");
                    append_chars(&mut p, &sep);
                    append_chars(&mut p, &t1);
                    assert(p@ =~= k@ + ": "@ + t1@);
                    p
                } else {
                    t1
                }
            },
            None => t1,
        };
        let mut t3 = t2;
        capitalize_chars(&mut t3);
        let out: Vec<char> = if t3.len() > 72 {
            let mut p: Vec<char> = Vec::new();
            let mut k: usize = 0;
            while k < 69
                invariant
                    k <= 69 < t3@.len(),
                    p@ == t3@.subrange(0, k as int),
                decreases 69 - k,
            {
                p.push(t3[k]);
                assert(p@ =~= t3@.subrange(0, k + 1));
                k = k + 1;
            }
            append_chars(&mut p, &dots);
            p
        } else {
            t3
        };
        assert(out@.len() <= 72);
        Ok(chars_to_string(&out))
    }

    /// Is a title too generic to stand alone?
    fn is_generic_title(&self, t: &Vec<char>) -> (r: bool)
        ensures
            r == is_generic_title_spec(t@),
    {
        let s = chars_to_string(t);
        generic_text(s.as_str())
    }
}

/// When the context carries a ticket that is absent from the synthesized
/// title, the title is not generic, the ticket is short enough to survive
/// the hard cap and its first character is not a lowercase letter, the
/// final title starts with the ticket and a colon.
pub proof fn lemma_ticket_prefixed(t: Seq<char>, k: Seq<char>, max_length: int)
    requires
        ({
            let t1 = if t.len() > max_length {
                truncated(t, if max_length >= 3 { max_length - 3 } else { 0 })
            } else {
                t
            };
            !contains_seq(t1, k) && !is_generic_title_spec(t1)
        }),
        k.len() >= 1,
        k.len() + 2 <= 69,
        upper_char_spec(k[0]) == k[0],
    ensures
        starts_with(post_process_spec(t, Some(k), max_length), k + ": "@),
{
    reveal_strlit("...");
    reveal_strlit(": ");
    let t1 = if t.len() > max_length {
        truncated(t, if max_length >= 3 { max_length - 3 } else { 0 })
    } else {
        t
    };
    let t2 = k + ": "@ + t1;
    let t3 = capitalize_spec(t2);
    assert(t2[0] == k[0]);
    assert(t3 =~= t2);
    let p = k + ": "@;
    if t3.len() > 72 {
        let out = truncated(t3, 69);
        assert(p.len() <= 69);
        assert forall|i: int| 0 <= i < p.len() implies out[i] == p[i] by {
            assert(out[i] == t3[i]);
        }
        assert(out.subrange(0, p.len() as int) =~= p);
    } else {
        assert(t3.subrange(0, p.len() as int) =~= p);
    }
}

} // verus!

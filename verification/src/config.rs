//! The saved settings: where they live, how the file reads and how it is
//! written (`~/.config/ds/config`).
use vstd::prelude::*;

use crate::text::{
    chars_of, find_char, find_in_range, join_path, lemma_find_char, lemma_first_line,
    lemma_line_alone, lemma_lines_append, line_spans, lines, owned, path_join, push_char,
    range_equals, single_line, span_text, string_of, strip_cr,
};

verus! {

/// The saved API key and model.
pub struct Config {
    pub api_key: Option<String>,
    pub model: String,
}

/// What a `Config` holds, as character sequences.
pub struct ConfigView {
    pub api_key: Option<Seq<char>>,
    pub model: Seq<char>,
}

impl View for Config {
    type V = ConfigView;

    open spec fn view(&self) -> ConfigView {
        ConfigView {
            api_key: match self.api_key {
                Some(k) => Some(k@),
                None => None,
            },
            model: self.model@,
        }
    }
}

/// Why no configuration path could be found.
#[derive(Debug)]
pub enum ConfigError {
    /// Neither `XDG_CONFIG_HOME` nor `HOME` is set.
    NoHomeDirectory,
}

impl ConfigError {
    /// The text shown to the user.
    pub fn message(&self) -> (r: String)
        ensures
            r@ == "could not find a home directory"@,
    {
        owned("could not find a home directory")
    }
}

/// No key and no model.
pub open spec fn empty_config() -> ConfigView {
    ConfigView { api_key: None, model: seq![] }
}

/// The effect of one `NAME=value` line (the first `=` splits it).
pub open spec fn apply_setting(c: ConfigView, line: Seq<char>) -> ConfigView {
    let e = find_char(line, '=');
    if e < line.len() {
        let name = line.take(e);
        let value = line.skip(e + 1);
        if name == "DEEPSEEK_API_KEY"@ {
            ConfigView { api_key: Some(value), model: c.model }
        } else if name == "DS_MODEL"@ && value.len() > 0 {
            ConfigView { api_key: c.api_key, model: value }
        } else {
            c
        }
    } else {
        c
    }
}

/// The lines applied in order to an empty configuration.
pub open spec fn apply_settings(ls: Seq<Seq<char>>) -> ConfigView
    decreases ls.len(),
{
    if ls.len() == 0 {
        empty_config()
    } else {
        apply_setting(apply_settings(ls.drop_last()), ls.last())
    }
}

/// The configuration that a file's text describes.
pub open spec fn parsed(text: Seq<char>) -> ConfigView {
    apply_settings(lines(text))
}

/// Reads a configuration file's text: `DEEPSEEK_API_KEY=...` sets the key,
/// a non-empty `DS_MODEL=...` sets the model, later lines win and other
/// lines are ignored.
pub fn parse(text: &str) -> (c: Config)
    ensures
        c@ == parsed(text@),
{
    let v = chars_of(text);
    let spans = line_spans(&v);
    let mut config = Config { api_key: None, model: String::new() };
    let ghost ls = lines(v@);
    assert(ls.take(0) =~= Seq::<Seq<char>>::empty());
    for k in 0..spans.len()
        invariant
            v@ == text@,
            ls == lines(v@),
            spans@.len() == ls.len(),
            forall|j: int|
                0 <= j < spans@.len() ==> spans@[j].0 <= spans@[j].1 <= v.len() && span_text(
                    v@,
                    #[trigger] spans@[j],
                ) == ls[j],
            config@ == apply_settings(ls.take(k as int)),
    {
        let (lo, hi) = spans[k];
        let ghost line = span_text(v@, spans@[k as int]);
        assert(line == ls[k as int]);
        let e = find_in_range(&v, lo, hi, '=');
        proof {
            assert(v@.subrange(lo as int, hi as int) == line);
            if e < hi {
                assert(line.take(e - lo) =~= v@.subrange(lo as int, e as int));
                assert(line.skip(e - lo + 1) =~= v@.subrange(e + 1, hi as int));
            }
            assert(ls.take(k + 1).drop_last() =~= ls.take(k as int));
        }
        if e < hi {
            if range_equals(&v, lo, e, "DEEPSEEK_API_KEY") {
                config.api_key = Some(string_of(&v, e + 1, hi));
            } else if range_equals(&v, lo, e, "DS_MODEL") && e + 1 < hi {
                config.model = string_of(&v, e + 1, hi);
            }
        }
    }
    assert(ls.take(ls.len() as int) =~= ls);
    config
}

/// The configuration read from a file's text, or the empty one when there
/// is no file (`None`).
pub fn load(contents: Option<&str>) -> (c: Config)
    ensures
        c@ == match contents {
            Some(text) => parsed(text@),
            None => empty_config(),
        },
{
    match contents {
        Some(text) => parse(text),
        None => Config { api_key: None, model: String::new() },
    }
}

/// The text written to the configuration file.
pub open spec fn rendered(c: ConfigView) -> Seq<char> {
    let key_part = match c.api_key {
        Some(k) => "DEEPSEEK_API_KEY"@ + seq!['='] + k + seq!['\n'],
        None => seq![],
    };
    key_part + "DS_MODEL"@ + seq!['='] + c.model + seq!['\n']
}

/// The file text for `config`: the key line when there is a key, then the
/// model line.
pub fn render(config: &Config) -> (r: String)
    ensures
        r@ == rendered(config@),
{
    let mut s = String::new();
    match &config.api_key {
        Some(k) => {
            s.append("DEEPSEEK_API_KEY");
            push_char(&mut s, '=');
            s.append(k.as_str());
            push_char(&mut s, '\n');
        },
        None => {},
    }
    s.append("DS_MODEL");
    push_char(&mut s, '=');
    s.append(config.model.as_str());
    push_char(&mut s, '\n');
    assert(s@ =~= rendered(config@));
    s
}

/// The configuration directory: `XDG_CONFIG_HOME`, else `HOME/.config`.
pub open spec fn config_home(xdg: Option<Seq<char>>, home: Option<Seq<char>>) -> Option<
    Seq<char>,
> {
    match xdg {
        Some(x) => Some(x),
        None => match home {
            Some(h) => Some(path_join(h, ".config"@)),
            None => None,
        },
    }
}

/// Where the configuration file lives, given the values of the
/// `XDG_CONFIG_HOME` and `HOME` variables: `<config home>/ds/config`.
pub fn path(xdg_config_home: Option<&str>, home: Option<&str>) -> (r: Result<String, ConfigError>)
    ensures
        match config_home(
            match xdg_config_home {
                Some(x) => Some(x@),
                None => None,
            },
            match home {
                Some(h) => Some(h@),
                None => None,
            },
        ) {
            Some(base) => r matches Ok(p) && p@ == path_join(path_join(base, "ds"@), "config"@),
            None => r matches Err(ConfigError::NoHomeDirectory),
        },
{
    let base = match xdg_config_home {
        Some(x) => owned(x),
        None => match home {
            Some(h) => join_path(h, ".config"),
            None => {
                return Err(ConfigError::NoHomeDirectory);
            },
        },
    };
    let dir = join_path(base.as_str(), "ds");
    Ok(join_path(dir.as_str(), "config"))
}

proof fn lemma_setting(name: Seq<char>, value: Seq<char>)
    requires
        forall|i: int| 0 <= i < name.len() ==> name[i] != '=',
    ensures
        ({
            let line = name + seq!['='] + value;
            &&& find_char(line, '=') == name.len()
            &&& line.take(name.len() as int) == name
            &&& line.skip(name.len() as int + 1) == value
        }),
{
    let line = name + seq!['='] + value;
    crate::text::lemma_find_char_exact(line, '=', name.len() as int);
    assert(line.take(name.len() as int) =~= name);
    assert(line.skip(name.len() as int + 1) =~= value);
}

/// Adding a line to complete lines adds it to what is parsed last.
proof fn lemma_parse_one_more(text: Seq<char>, line: Seq<char>)
    requires
        text.len() == 0 || text.last() == '\n',
        single_line(line),
    ensures
        parsed(text + line + seq!['\n']) == apply_setting(parsed(text), line),
{
    lemma_line_alone(line);
    lemma_lines_append(text, line + seq!['\n']);
    assert(text + line + seq!['\n'] =~= text + (line + seq!['\n']));
    let ls = lines(text).push(line);
    assert(lines(text) + seq![line] =~= ls);
    assert(ls.drop_last() =~= lines(text));
}

/// Settings are read line by line and later lines win: a key line sets the
/// key and keeps the model; a model line with a value sets the model and
/// keeps the key; a model line without a value, and any line without `=`,
/// change nothing.
pub proof fn lemma_later_lines_win(text: Seq<char>, value: Seq<char>, other: Seq<char>)
    requires
        text.len() == 0 || text.last() == '\n',
        single_line(value),
        single_line(other),
        forall|i: int| 0 <= i < other.len() ==> other[i] != '=',
    ensures
        parsed(text + ("DEEPSEEK_API_KEY"@ + seq!['='] + value) + seq!['\n']) == (ConfigView {
            api_key: Some(value),
            model: parsed(text).model,
        }),
        value.len() > 0 ==> parsed(text + ("DS_MODEL"@ + seq!['='] + value) + seq!['\n']) == (
        ConfigView { api_key: parsed(text).api_key, model: value }),
        parsed(text + ("DS_MODEL"@ + seq!['=']) + seq!['\n']) == parsed(text),
        parsed(text + other + seq!['\n']) == parsed(text),
{
    reveal_strlit("DEEPSEEK_API_KEY");
    reveal_strlit("DS_MODEL");
    let key_line = "DEEPSEEK_API_KEY"@ + seq!['='] + value;
    let model_line = "DS_MODEL"@ + seq!['='] + value;
    let bare = "DS_MODEL"@ + seq!['='];
    assert forall|i: int| 0 <= i < key_line.len() implies key_line[i] != '\n' by {
        if i >= 17 {
            assert(key_line[i] == value[i - 17]);
        }
    }
    assert forall|i: int| 0 <= i < model_line.len() implies model_line[i] != '\n' by {
        if i >= 9 {
            assert(model_line[i] == value[i - 9]);
        }
    }
    if value.len() > 0 {
        assert(key_line.last() == value.last());
        assert(model_line.last() == value.last());
    }
    lemma_parse_one_more(text, key_line);
    lemma_parse_one_more(text, model_line);
    lemma_parse_one_more(text, bare);
    lemma_parse_one_more(text, other);
    lemma_setting("DEEPSEEK_API_KEY"@, value);
    lemma_setting("DS_MODEL"@, value);
    lemma_setting("DS_MODEL"@, seq![]);
    assert(bare =~= "DS_MODEL"@ + seq!['='] + Seq::<char>::empty());
    assert("DS_MODEL"@ != "DEEPSEEK_API_KEY"@);
    lemma_find_char(other, '=');
}

/// What is saved is what is loaded back: reading the text written for a
/// configuration gives that configuration again, provided the key and the
/// model are single lines.
pub proof fn lemma_save_then_load(c: ConfigView)
    requires
        c.api_key matches Some(k) ==> single_line(k),
        single_line(c.model),
    ensures
        parsed(rendered(c)) == c,
{
    reveal_strlit("DEEPSEEK_API_KEY");
    reveal_strlit("DS_MODEL");
    let model_line = "DS_MODEL"@ + seq!['='] + c.model;
    lemma_setting("DS_MODEL"@, c.model);
    assert forall|i: int| 0 <= i < model_line.len() implies model_line[i] != '\n' by {
        if i >= 9 {
            assert(model_line[i] == c.model[i - 9]);
        }
    }
    assert(strip_cr(model_line) == model_line) by {
        if c.model.len() > 0 {
            assert(model_line.last() == c.model.last());
        }
    }
    lemma_first_line(model_line, seq![]);
    assert(lines(Seq::<char>::empty()) =~= Seq::<Seq<char>>::empty());
    assert(lines(model_line + seq!['\n']) =~= seq![model_line]) by {
        assert(model_line + seq!['\n'] + Seq::<char>::empty() =~= model_line + seq!['\n']);
    }
    match c.api_key {
        Some(k) => {
            let key_line = "DEEPSEEK_API_KEY"@ + seq!['='] + k;
            lemma_setting("DEEPSEEK_API_KEY"@, k);
            assert forall|i: int| 0 <= i < key_line.len() implies key_line[i] != '\n' by {
                if i >= 17 {
                    assert(key_line[i] == k[i - 17]);
                }
            }
            assert(strip_cr(key_line) == key_line) by {
                if k.len() > 0 {
                    assert(key_line.last() == k.last());
                }
            }
            lemma_first_line(key_line, model_line + seq!['\n']);
            assert(rendered(c) =~= key_line + seq!['\n'] + (model_line + seq!['\n']));
            let ls = seq![key_line, model_line];
            assert(lines(rendered(c)) =~= ls);
            assert(ls.drop_last() =~= seq![key_line]);
            assert(ls.drop_last().drop_last() =~= Seq::<Seq<char>>::empty());
            assert(key_line.take(16) != "DS_MODEL"@);
            assert(model_line.take(8) != "DEEPSEEK_API_KEY"@);
            let first = apply_setting(empty_config(), key_line);
            assert(first.api_key == Some(k));
            let one = seq![key_line];
            assert(one.drop_last() =~= Seq::<Seq<char>>::empty());
            assert(one.last() == key_line);
            assert(apply_settings(one.drop_last()) == empty_config());
            assert(apply_settings(one) == first);
            assert(apply_settings(ls) == apply_setting(first, model_line));
            assert(apply_setting(first, model_line).model =~= c.model);
            assert(apply_setting(first, model_line).api_key == c.api_key);
            assert(apply_setting(first, model_line) == c);
            assert(parsed(rendered(c)) == apply_settings(ls));
        },
        None => {
            assert(rendered(c) =~= model_line + seq!['\n']);
            let ls = seq![model_line];
            assert(ls.drop_last() =~= Seq::<Seq<char>>::empty());
            assert(model_line.take(8) != "DEEPSEEK_API_KEY"@);
            assert(ls.last() == model_line);
            assert(apply_settings(ls.drop_last()) == empty_config());
            let got = apply_setting(empty_config(), model_line);
            assert(got.model =~= c.model);
            assert(got == c);
            assert(lines(rendered(c)) =~= ls);
            assert(parsed(rendered(c)) == c);
        },
    }
}

} // verus!

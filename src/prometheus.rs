use crate::metrics::{Counter, DiscreteGauge};
use vstd::prelude::*;

verus! {

/// A label of an exposition line.
pub enum Label {
    /// A bare label.
    Key(String),
    /// `name="value"`.
    KeyValue(String, String),
}

/// Writes a metric into an exposition text under its full name.
pub trait StringRender {
    fn render(&self, name: &str, s: &mut String);
}

/// The character of a decimal digit.
pub open spec fn digit_char(d: nat) -> char {
    ('0' as nat + d) as char
}

/// A number written in decimal, without leading zeros.
pub open spec fn decimal(n: nat) -> Seq<char>
    decreases n,
{
    if n < 10 {
        seq![digit_char(n)]
    } else {
        decimal(n / 10).push(digit_char(n % 10))
    }
}

fn digit_text(d: u64) -> (r: &'static str)
    requires
        d < 10,
    ensures
        r@ == seq![digit_char(d as nat)],
{
    proof {
        reveal_strlit("0");
        reveal_strlit("1");
        reveal_strlit("2");
        reveal_strlit("3");
        reveal_strlit("4");
        reveal_strlit("5");
        reveal_strlit("6");
        reveal_strlit("7");
        reveal_strlit("8");
        reveal_strlit("9");
    }
    let r = if d == 0 {
        "0"
    } else if d == 1 {
        "1"
    } else if d == 2 {
        "2"
    } else if d == 3 {
        "3"
    } else if d == 4 {
        "4"
    } else if d == 5 {
        "5"
    } else if d == 6 {
        "6"
    } else if d == 7 {
        "7"
    } else if d == 8 {
        "8"
    } else {
        "9"
    };
    assert(r@ =~= seq![digit_char(d as nat)]);
    r
}

/// Appends `n` written in decimal.
pub fn write_decimal(s: &mut String, n: u64)
    ensures
        final(s)@ == old(s)@ + decimal(n as nat),
    decreases n,
{
    if n >= 10 {
        write_decimal(s, n / 10);
    }
    s.append(digit_text(n % 10));
    assert(final(s)@ =~= old(s)@ + decimal(n as nat));
}

/// The text of one label.
pub open spec fn label_text(l: Label) -> Seq<char> {
    match l {
        Label::Key(k) => k@,
        Label::KeyValue(n, v) => n@ + seq!['=', '"'] + v@ + seq!['"'],
    }
}

/// The texts of the first `n` labels, separated by commas.
pub open spec fn labels_joined(labels: Seq<Label>, n: int) -> Seq<char>
    decreases n,
{
    if n <= 0 {
        Seq::empty()
    } else if n == 1 {
        label_text(labels[0])
    } else {
        labels_joined(labels, n - 1) + seq![','] + label_text(labels[n - 1])
    }
}

/// The label part of an exposition line: nothing without labels, else the
/// labels between braces.
pub open spec fn labels_text(labels: Seq<Label>) -> Seq<char> {
    if labels.len() == 0 {
        Seq::empty()
    } else {
        seq!['{'] + labels_joined(labels, labels.len() as int) + seq!['}']
    }
}

/// The line `# TYPE <name> <type>`.
pub open spec fn type_line(name: Seq<char>, metric_type: Seq<char>) -> Seq<char> {
    seq!['#', ' ', 'T', 'Y', 'P', 'E', ' '] + name + seq![' '] + metric_type + seq!['\n']
}

/// The line `<name>[_<suffix>][{labels}] <value>`.
pub open spec fn metric_line(
    name: Seq<char>,
    suffix: Option<Seq<char>>,
    labels: Seq<Label>,
    value: Seq<char>,
) -> Seq<char> {
    let head = match suffix {
        Some(x) => name + seq!['_'] + x,
        None => name,
    };
    head + labels_text(labels) + seq![' '] + value + seq!['\n']
}

/// Appends the type line of a metric.
pub fn write_type_line(buffer: &mut String, name: &str, metric_type: &str)
    ensures
        final(buffer)@ == old(buffer)@ + type_line(name@, metric_type@),
{
    proof {
        reveal_strlit("# TYPE ");
        reveal_strlit(" ");
        reveal_strlit("\n");
    }
    buffer.append("# TYPE ");
    buffer.append(name);
    buffer.append(" ");
    buffer.append(metric_type);
    buffer.append("\n");
    assert(final(buffer)@ =~= old(buffer)@ + type_line(name@, metric_type@));
}

/// Appends a value line of a metric.
pub fn write_metric_line(
    buffer: &mut String,
    name: &str,
    suffix: Option<&str>,
    labels: &Vec<Label>,
    value: &str,
)
    ensures
        final(buffer)@ == old(buffer)@ + metric_line(
            name@,
            match suffix {
                Some(x) => Some(x@),
                None => None,
            },
            labels@,
            value@,
        ),
{
    proof {
        reveal_strlit("_");
        reveal_strlit("{");
        reveal_strlit(",");
        reveal_strlit("=\"");
        reveal_strlit("\"");
        reveal_strlit("}");
        reveal_strlit(" ");
        reveal_strlit("\n");
    }
    let ghost start = buffer@;
    buffer.append(name);
    match suffix {
        Some(x) => {
            buffer.append("_");
            buffer.append(x);
        },
        None => {},
    }
    let ghost head = buffer@;
    let mut i: usize = 0;
    while i < labels.len()
        invariant
            i <= labels@.len(),
            i == 0 ==> buffer@ == head,
            i > 0 ==> buffer@ == head + seq!['{'] + labels_joined(labels@, i as int),
        decreases labels@.len() - i,
    {
        let ghost before = buffer@;
        proof {
            reveal_strlit("{");
            reveal_strlit(",");
            reveal_strlit("=\"");
            reveal_strlit("\"");
            assert("{"@ =~= seq!['{']);
            assert(","@ =~= seq![',']);
            assert("=\""@ =~= seq!['=', '"']);
            assert("\""@ =~= seq!['"']);
        }
        if i == 0 {
            buffer.append("{");
        } else {
            buffer.append(",");
        }
        let ghost opened = buffer@;
        match &labels[i] {
            Label::Key(k) => {
                buffer.append(k.as_str());
            },
            Label::KeyValue(n, v) => {
                buffer.append(n.as_str());
                buffer.append("=\"");
                buffer.append(v.as_str());
                buffer.append("\"");
            },
        }
        assert(buffer@ =~= opened + label_text(labels@[i as int]));
        i = i + 1;
        assert(buffer@ =~= head + seq!['{'] + labels_joined(labels@, i as int));
    }
    if i > 0 {
        buffer.append("}");
    }
    assert(buffer@ =~= head + labels_text(labels@));
    buffer.append(" ");
    buffer.append(value);
    buffer.append("\n");
    assert(buffer@ =~= start + metric_line(
        name@,
        match suffix {
            Some(x) => Some(x@),
            None => None,
        },
        labels@,
        value@,
    ));
}

/// The exposition of a counter: its type line, its value line, and an
/// empty line.
pub open spec fn counter_exposition(name: Seq<char>, value: u64) -> Seq<char> {
    type_line(name, seq!['c', 'o', 'u', 'n', 't', 'e', 'r']) + metric_line(
        name,
        None,
        Seq::empty(),
        decimal(value as nat),
    ) + seq!['\n']
}

/// The exposition of a gauge of whole numbers.
pub open spec fn gauge_exposition(name: Seq<char>, value: u64) -> Seq<char> {
    type_line(name, seq!['g', 'a', 'u', 'g', 'e']) + metric_line(
        name,
        None,
        Seq::empty(),
        decimal(value as nat),
    ) + seq!['\n']
}

/// Appends the exposition of a counter.
pub fn render_counter(c: &Counter, name: &str, s: &mut String)
    ensures
        final(s)@ == old(s)@ + counter_exposition(name@, c@),
{
    proof {
        reveal_strlit("counter");
        reveal_strlit("\n");
    }
    write_type_line(s, name, "counter");
    let mut value = String::new();
    write_decimal(&mut value, c.read());
    let labels: Vec<Label> = Vec::new();
    write_metric_line(s, name, None, &labels, value.as_str());
    s.append("\n");
    assert(labels@ =~= Seq::<Label>::empty());
    assert(final(s)@ =~= old(s)@ + counter_exposition(name@, c@));
}

/// Appends the exposition of a gauge of whole numbers.
pub fn render_discrete_gauge(g: &DiscreteGauge, name: &str, s: &mut String)
    ensures
        final(s)@ == old(s)@ + gauge_exposition(name@, g@),
{
    proof {
        reveal_strlit("gauge");
        reveal_strlit("\n");
    }
    write_type_line(s, name, "gauge");
    let mut value = String::new();
    write_decimal(&mut value, g.read());
    let labels: Vec<Label> = Vec::new();
    write_metric_line(s, name, None, &labels, value.as_str());
    s.append("\n");
    assert(labels@ =~= Seq::<Label>::empty());
    assert(final(s)@ =~= old(s)@ + gauge_exposition(name@, g@));
}

impl StringRender for Counter {
    fn render(&self, name: &str, s: &mut String) {
        render_counter(self, name, s)
    }
}

impl StringRender for DiscreteGauge {
    fn render(&self, name: &str, s: &mut String) {
        render_discrete_gauge(self, name, s)
    }
}

} // verus!

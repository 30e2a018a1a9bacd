//! Rendering metrics into the OpenMetrics text format, and the snapshot
//! schema/values transport.
//!
//! Every rendering function appends to a `String` writer and promises, in its
//! contract, exactly which character sequence it appends; the sequences are
//! defined by spec functions over the mathematical models of the data.

use vstd::prelude::*;
use vstd::string::StringExecFns;

use crate::base::{item_wf, group_wf, MetricItem, MetricItemV, MetricsGroup, MetricsGroupV};
use crate::registry::{
    registry_wf, spec_registry_schema, spec_registry_values, spec_schema_version, Registry,
    RegistryV,
};
use crate::metrics::{
    spec_metric_type, spec_metric_value, spec_type_str, spec_value_type, FloatV, Metric,
    MetricType, MetricValue, MetricValueV,
};

verus! {

/// The decimal digit character for one digit value.
pub open spec fn spec_dec_digit(d: nat) -> char {
    ((d + 48) as u8) as char
}

/// The decimal rendering of an unsigned 64-bit number, most significant digit
/// first, without leading zeros (a lone zero for the number zero).
pub open spec fn spec_dec_u64(n: nat) -> Seq<char>
    decreases n,
{
    if n < 10 {
        seq![spec_dec_digit(n)]
    } else {
        spec_dec_u64(n / 10).push(spec_dec_digit(n % 10))
    }
}

/// The decimal rendering of a signed 64-bit number: a minus sign before the
/// magnitude for negative numbers.
pub open spec fn spec_dec_i64(v: int) -> Seq<char> {
    if v >= 0 {
        spec_dec_u64(v as nat)
    } else {
        "-"@ + spec_dec_u64((-v) as nat)
    }
}

/// The one-character string for a decimal digit.
fn digit_str(d: u64) -> (r: &'static str)
    requires
        d < 10,
    ensures
        r@ == seq![spec_dec_digit(d as nat)],
{
    match d {
        0 => {
            proof {
                reveal_strlit("0");
                assert('0' == spec_dec_digit(0));
                assert("0"@ =~= seq![spec_dec_digit(0)]);
            }
            "0"
        },
        1 => {
            proof {
                reveal_strlit("1");
                assert('1' == spec_dec_digit(1));
                assert("1"@ =~= seq![spec_dec_digit(1)]);
            }
            "1"
        },
        2 => {
            proof {
                reveal_strlit("2");
                assert('2' == spec_dec_digit(2));
                assert("2"@ =~= seq![spec_dec_digit(2)]);
            }
            "2"
        },
        3 => {
            proof {
                reveal_strlit("3");
                assert('3' == spec_dec_digit(3));
                assert("3"@ =~= seq![spec_dec_digit(3)]);
            }
            "3"
        },
        4 => {
            proof {
                reveal_strlit("4");
                assert('4' == spec_dec_digit(4));
                assert("4"@ =~= seq![spec_dec_digit(4)]);
            }
            "4"
        },
        5 => {
            proof {
                reveal_strlit("5");
                assert('5' == spec_dec_digit(5));
                assert("5"@ =~= seq![spec_dec_digit(5)]);
            }
            "5"
        },
        6 => {
            proof {
                reveal_strlit("6");
                assert('6' == spec_dec_digit(6));
                assert("6"@ =~= seq![spec_dec_digit(6)]);
            }
            "6"
        },
        7 => {
            proof {
                reveal_strlit("7");
                assert('7' == spec_dec_digit(7));
                assert("7"@ =~= seq![spec_dec_digit(7)]);
            }
            "7"
        },
        8 => {
            proof {
                reveal_strlit("8");
                assert('8' == spec_dec_digit(8));
                assert("8"@ =~= seq![spec_dec_digit(8)]);
            }
            "8"
        },
        _ => {
            proof {
                reveal_strlit("9");
                assert('9' == spec_dec_digit(9));
                assert("9"@ =~= seq![spec_dec_digit(9)]);
            }
            "9"
        },
    }
}

/// Appends the decimal rendering of an unsigned 64-bit number.
pub fn encode_u64(writer: &mut String, v: u64)
    ensures
        final(writer)@ == old(writer)@ + spec_dec_u64(v as nat),
    decreases v,
{
    if v >= 10 {
        encode_u64(writer, v / 10);
    }
    writer.append(digit_str(v % 10));
    proof {
        assert(final(writer)@ =~= old(writer)@ + spec_dec_u64(v as nat));
    }
}

/// Appends the decimal rendering of a signed 64-bit number.
pub fn encode_i64(writer: &mut String, v: i64)
    ensures
        final(writer)@ == old(writer)@ + spec_dec_i64(v as int),
{
    if v >= 0 {
        encode_u64(writer, v as u64);
    } else {
        writer.append("-");
        let mag: u64 = if v == i64::MIN {
            9223372036854775808u64
        } else {
            (-v) as u64
        };
        proof {
            assert(mag == -(v as int));
        }
        encode_u64(writer, mag);
        proof {
            assert(final(writer)@ =~= old(writer)@ + spec_dec_i64(v as int));
        }
    }
}

/// Appends the terminal line of the OpenMetrics text format.
pub fn write_eof(writer: &mut String)
    ensures
        final(writer)@ == old(writer)@ + "# EOF\n"@,
{
    writer.append("# EOF\n");
}

/// The rendered prefix text: every prefix segment followed by an underscore.
pub open spec fn spec_prefix_chain(ps: Seq<Seq<char>>) -> Seq<char>
    decreases ps.len(),
{
    if ps.len() == 0 {
        Seq::empty()
    } else {
        ps[0] + "_"@ + spec_prefix_chain(ps.drop_first())
    }
}

/// Extending the prefix chain by one more segment appends that segment and an
/// underscore.
pub proof fn lemma_prefix_chain_snoc(ps: Seq<Seq<char>>, k: int)
    requires
        0 <= k < ps.len(),
    ensures
        spec_prefix_chain(ps.take(k + 1)) == spec_prefix_chain(ps.take(k)) + ps[k] + "_"@,
    decreases k,
{
    if k == 0 {
        assert(ps.take(1) =~= seq![ps[0]]);
        assert(ps.take(1).drop_first() =~= Seq::<Seq<char>>::empty());
        assert(ps.take(0) =~= Seq::<Seq<char>>::empty());
        assert(spec_prefix_chain(ps.take(1)) =~= spec_prefix_chain(ps.take(0)) + ps[0] + "_"@);
    } else {
        lemma_prefix_chain_snoc(ps.drop_first(), k - 1);
        assert(ps.take(k + 1)[0] == ps[0]);
        assert(ps.take(k + 1).drop_first() =~= ps.drop_first().take(k));
        assert(ps.take(k).drop_first() =~= ps.drop_first().take(k - 1));
        assert(ps.drop_first()[k - 1] == ps[k]);
        assert(spec_prefix_chain(ps.take(k + 1)) =~= spec_prefix_chain(ps.take(k)) + ps[k] + "_"@);
    }
}

/// The full name of a metric under the given prefix segments.
pub open spec fn spec_prefix_name(ps: Seq<Seq<char>>, name: Seq<char>) -> Seq<char> {
    spec_prefix_chain(ps) + name
}

/// Appends every prefix segment followed by an underscore, then the name.
pub fn write_prefix_name(writer: &mut String, prefixes: &Vec<&str>, name: &str)
    ensures
        final(writer)@ == old(writer)@ + spec_prefix_name(prefixes.deep_view(), name@),
{
    let ghost ps = prefixes.deep_view();
    let n = prefixes.len();
    let mut i: usize = 0;
    while i < n
        invariant
            i <= n,
            n == prefixes@.len(),
            ps == prefixes.deep_view(),
            writer@ == old(writer)@ + spec_prefix_chain(ps.take(i as int)),
        decreases n - i,
    {
        writer.append(prefixes[i]);
        writer.append("_");
        proof {
            lemma_prefix_chain_snoc(ps, i as int);
            assert(writer@ =~= old(writer)@ + spec_prefix_chain(ps.take(i + 1)));
        }
        i += 1;
    }
    writer.append(name);
    proof {
        assert(ps.take(n as int) =~= ps);
        assert(final(writer)@ =~= old(writer)@ + spec_prefix_name(ps, name@));
    }
}

/// The `key="value"` rendering of one label pair.
pub open spec fn spec_label_one(l: (Seq<char>, Seq<char>)) -> Seq<char> {
    l.0 + "=\""@ + l.1 + "\""@
}

/// The comma-prefixed renderings of the label pairs after the first.
pub open spec fn spec_labels_tail(ls: Seq<(Seq<char>, Seq<char>)>) -> Seq<char>
    decreases ls.len(),
{
    if ls.len() == 0 {
        Seq::empty()
    } else {
        ","@ + spec_label_one(ls[0]) + spec_labels_tail(ls.drop_first())
    }
}

/// Extending the label tail by one more pair appends a comma and that pair.
pub proof fn lemma_labels_tail_snoc(ls: Seq<(Seq<char>, Seq<char>)>, k: int)
    requires
        0 <= k < ls.len(),
    ensures
        spec_labels_tail(ls.take(k + 1)) == spec_labels_tail(ls.take(k)) + ","@ + spec_label_one(
            ls[k],
        ),
    decreases k,
{
    if k == 0 {
        assert(ls.take(1) =~= seq![ls[0]]);
        assert(ls.take(1).drop_first() =~= Seq::<(Seq<char>, Seq<char>)>::empty());
        assert(ls.take(0) =~= Seq::<(Seq<char>, Seq<char>)>::empty());
        assert(spec_labels_tail(ls.take(1)) =~= spec_labels_tail(ls.take(0)) + ","@
            + spec_label_one(ls[0]));
    } else {
        lemma_labels_tail_snoc(ls.drop_first(), k - 1);
        assert(ls.take(k + 1)[0] == ls[0]);
        assert(ls.take(k + 1).drop_first() =~= ls.drop_first().take(k));
        assert(ls.take(k).drop_first() =~= ls.drop_first().take(k - 1));
        assert(ls.drop_first()[k - 1] == ls[k]);
        assert(spec_labels_tail(ls.take(k + 1)) =~= spec_labels_tail(ls.take(k)) + ","@
            + spec_label_one(ls[k]));
    }
}

/// The comma-separated bodies of all label pairs.
pub open spec fn spec_labels_body(ls: Seq<(Seq<char>, Seq<char>)>) -> Seq<char> {
    if ls.len() == 0 {
        Seq::empty()
    } else {
        spec_label_one(ls[0]) + spec_labels_tail(ls.drop_first())
    }
}

/// The label block of a sample line: empty for no labels, else the pairs in
/// braces, comma-separated.
pub open spec fn spec_label_block(ls: Seq<(Seq<char>, Seq<char>)>) -> Seq<char> {
    if ls.len() == 0 {
        Seq::empty()
    } else {
        "{"@ + spec_labels_body(ls) + "}"@
    }
}

/// Appends the label block for the given label pairs.
pub fn write_labels(writer: &mut String, labels: &Vec<(String, String)>)
    ensures
        final(writer)@ == old(writer)@ + spec_label_block(labels.deep_view()),
{
    let ghost ls = labels.deep_view();
    let n = labels.len();
    if n == 0 {
        proof {
            assert(final(writer)@ =~= old(writer)@ + spec_label_block(ls));
        }
        return ;
    }
    writer.append("{");
    let mut i: usize = 0;
    while i < n
        invariant
            1 <= n == labels@.len(),
            i <= n,
            ls == labels.deep_view(),
            i == 0 ==> writer@ == old(writer)@ + "{"@,
            i >= 1 ==> writer@ == old(writer)@ + "{"@ + spec_label_one(ls[0]) + spec_labels_tail(
                ls.drop_first().take(i - 1),
            ),
        decreases n - i,
    {
        if i > 0 {
            writer.append(",");
        }
        writer.append(labels[i].0.as_str());
        writer.append("=\"");
        writer.append(labels[i].1.as_str());
        writer.append("\"");
        proof {
            assert(ls[i as int] == (labels@[i as int].0@, labels@[i as int].1@));
            if i == 0 {
                assert(spec_labels_tail(ls.drop_first().take(0)) =~= Seq::<char>::empty());
                assert(writer@ =~= old(writer)@ + "{"@ + spec_label_one(ls[0]) + spec_labels_tail(
                    ls.drop_first().take(0),
                ));
            } else {
                let rest = ls.drop_first();
                assert(rest[i - 1] == ls[i as int]);
                lemma_labels_tail_snoc(rest, i - 1);
                assert(writer@ =~= old(writer)@ + "{"@ + spec_label_one(ls[0]) + spec_labels_tail(
                    rest.take(i as int),
                ));
            }
        }
        i += 1;
    }
    writer.append("}");
    proof {
        assert(ls.drop_first().take(n - 1) =~= ls.drop_first());
        assert(final(writer)@ =~= old(writer)@ + spec_label_block(ls));
    }
}

/// The `# HELP` and `# TYPE` lines of one metric.
pub open spec fn spec_meta_lines(full: Seq<char>, help: Seq<char>, t: MetricType) -> Seq<char> {
    "# HELP "@ + full + " "@ + help + ".\n"@ + "# TYPE "@ + full + " "@ + spec_type_str(t)
        + "\n"@
}

/// One histogram bucket sample line, with the bucket bound as an `le` label
/// after the accumulated labels.
pub open spec fn spec_bucket_line(
    full: Seq<char>,
    labels: Seq<(Seq<char>, Seq<char>)>,
    b: (FloatV, u64),
) -> Seq<char> {
    full + "_bucket"@ + spec_label_block(labels.push(("le"@, b.0.text))) + " "@ + spec_dec_u64(
        b.1 as nat,
    ) + "\n"@
}

/// All bucket sample lines of a histogram.
pub open spec fn spec_bucket_lines(
    full: Seq<char>,
    labels: Seq<(Seq<char>, Seq<char>)>,
    bs: Seq<(FloatV, u64)>,
) -> Seq<char>
    decreases bs.len(),
{
    if bs.len() == 0 {
        Seq::empty()
    } else {
        spec_bucket_line(full, labels, bs[0]) + spec_bucket_lines(full, labels, bs.drop_first())
    }
}

/// Extending the bucket lines by one more bucket appends its line.
pub proof fn lemma_bucket_lines_snoc(
    full: Seq<char>,
    labels: Seq<(Seq<char>, Seq<char>)>,
    bs: Seq<(FloatV, u64)>,
    k: int,
)
    requires
        0 <= k < bs.len(),
    ensures
        spec_bucket_lines(full, labels, bs.take(k + 1)) == spec_bucket_lines(
            full,
            labels,
            bs.take(k),
        ) + spec_bucket_line(full, labels, bs[k]),
    decreases k,
{
    if k == 0 {
        assert(bs.take(1) =~= seq![bs[0]]);
        assert(bs.take(1).drop_first() =~= Seq::<(FloatV, u64)>::empty());
        assert(bs.take(0) =~= Seq::<(FloatV, u64)>::empty());
        assert(spec_bucket_lines(full, labels, bs.take(1)) =~= spec_bucket_lines(
            full,
            labels,
            bs.take(0),
        ) + spec_bucket_line(full, labels, bs[0]));
    } else {
        lemma_bucket_lines_snoc(full, labels, bs.drop_first(), k - 1);
        assert(bs.take(k + 1)[0] == bs[0]);
        assert(bs.take(k + 1).drop_first() =~= bs.drop_first().take(k));
        assert(bs.take(k).drop_first() =~= bs.drop_first().take(k - 1));
        assert(bs.drop_first()[k - 1] == bs[k]);
        assert(spec_bucket_lines(full, labels, bs.take(k + 1)) =~= spec_bucket_lines(
            full,
            labels,
            bs.take(k),
        ) + spec_bucket_line(full, labels, bs[k]));
    }
}

/// The sample lines of one metric value: one line for a counter (suffix
/// `_total`) or a gauge (no suffix), and for a histogram its bucket lines
/// followed by the `_sum` and `_count` lines.
pub open spec fn spec_sample_lines(
    full: Seq<char>,
    labels: Seq<(Seq<char>, Seq<char>)>,
    v: MetricValueV,
) -> Seq<char> {
    match v {
        MetricValueV::Counter(c) => full + "_total"@ + spec_label_block(labels) + " "@
            + spec_dec_u64(c as nat) + "\n"@,
        MetricValueV::Gauge(g) => full + spec_label_block(labels) + " "@ + spec_dec_i64(g as int)
            + "\n"@,
        MetricValueV::Histogram { buckets, sum, count } => spec_bucket_lines(full, labels, buckets)
            + full + "_sum"@ + spec_label_block(labels) + " "@ + sum.text + "\n"@ + full
            + "_count"@ + spec_label_block(labels) + " "@ + spec_dec_u64(count as nat) + "\n"@,
    }
}

/// The full rendering of one metric: `# HELP` and `# TYPE` lines, then the
/// sample lines, under the full prefixed name and the accumulated labels.
pub open spec fn spec_render_one(
    prefixes: Seq<Seq<char>>,
    labels: Seq<(Seq<char>, Seq<char>)>,
    name: Seq<char>,
    help: Seq<char>,
    v: MetricValueV,
) -> Seq<char> {
    spec_meta_lines(spec_prefix_name(prefixes, name), help, spec_value_type(v))
        + spec_sample_lines(spec_prefix_name(prefixes, name), labels, v)
}

/// The rendering of one live metric item.
pub open spec fn spec_item_om(
    prefixes: Seq<Seq<char>>,
    labels: Seq<(Seq<char>, Seq<char>)>,
    it: MetricItemV,
) -> Seq<char> {
    spec_render_one(prefixes, labels, it.name, it.help, spec_metric_value(it.metric))
}

/// The rendering of a sequence of metric items.
pub open spec fn spec_items_om(
    prefixes: Seq<Seq<char>>,
    labels: Seq<(Seq<char>, Seq<char>)>,
    items: Seq<MetricItemV>,
) -> Seq<char>
    decreases items.len(),
{
    if items.len() == 0 {
        Seq::empty()
    } else {
        spec_item_om(prefixes, labels, items[0]) + spec_items_om(
            prefixes,
            labels,
            items.drop_first(),
        )
    }
}

/// Extending the rendered items by one more item appends its rendering.
pub proof fn lemma_items_om_snoc(
    prefixes: Seq<Seq<char>>,
    labels: Seq<(Seq<char>, Seq<char>)>,
    items: Seq<MetricItemV>,
    k: int,
)
    requires
        0 <= k < items.len(),
    ensures
        spec_items_om(prefixes, labels, items.take(k + 1)) == spec_items_om(
            prefixes,
            labels,
            items.take(k),
        ) + spec_item_om(prefixes, labels, items[k]),
    decreases k,
{
    if k == 0 {
        assert(items.take(1) =~= seq![items[0]]);
        assert(items.take(1).drop_first() =~= Seq::<MetricItemV>::empty());
        assert(items.take(0) =~= Seq::<MetricItemV>::empty());
        assert(spec_items_om(prefixes, labels, items.take(1)) =~= spec_items_om(
            prefixes,
            labels,
            items.take(0),
        ) + spec_item_om(prefixes, labels, items[0]));
    } else {
        lemma_items_om_snoc(prefixes, labels, items.drop_first(), k - 1);
        assert(items.take(k + 1)[0] == items[0]);
        assert(items.take(k + 1).drop_first() =~= items.drop_first().take(k));
        assert(items.take(k).drop_first() =~= items.drop_first().take(k - 1));
        assert(items.drop_first()[k - 1] == items[k]);
        assert(spec_items_om(prefixes, labels, items.take(k + 1)) =~= spec_items_om(
            prefixes,
            labels,
            items.take(k),
        ) + spec_item_om(prefixes, labels, items[k]));
    }
}

/// The type of a metric equals the type of its value snapshot.
pub proof fn lemma_metric_type_of_value(m: crate::metrics::MetricV)
    ensures
        spec_value_type(spec_metric_value(m)) == spec_metric_type(m),
{
}

/// Copies a label list.
pub(crate) fn clone_labels(labels: &Vec<(String, String)>) -> (r: Vec<(String, String)>)
    ensures
        r@ == labels@,
        r.deep_view() == labels.deep_view(),
{
    let mut r: Vec<(String, String)> = Vec::new();
    let mut i: usize = 0;
    while i < labels.len()
        invariant
            i <= labels@.len(),
            r@.len() == i,
            forall|j: int| 0 <= j < i ==> #[trigger] r@[j] == labels@[j],
        decreases labels@.len() - i,
    {
        r.push((labels[i].0.clone(), labels[i].1.clone()));
        i += 1;
    }
    proof {
        assert(r@ =~= labels@);
        assert(r.deep_view() =~~= labels.deep_view());
    }
    r
}

/// Appends the sample lines of a histogram: the bucket lines, then the
/// `_sum` and `_count` lines.
fn write_histogram_samples(
    writer: &mut String,
    prefixes: &Vec<&str>,
    labels: &Vec<(String, String)>,
    name: &str,
    h: &crate::metrics::Histogram,
)
    requires
        crate::metrics::histogram_wf(h.deep_view()),
    ensures
        final(writer)@ == old(writer)@ + spec_sample_lines(
            spec_prefix_name(prefixes.deep_view(), name@),
            labels.deep_view(),
            spec_metric_value(crate::metrics::MetricV::Histogram(h.deep_view())),
        ),
{
    let ghost ps = prefixes.deep_view();
    let ghost ls = labels.deep_view();
    let ghost full = spec_prefix_name(ps, name@);
    let bs = h.buckets();
    let ghost bsv = bs.deep_view();
    let n = bs.len();
    let mut i: usize = 0;
    while i < n
        invariant
            i <= n,
            n == bs@.len(),
            bsv == bs.deep_view(),
            ls == labels.deep_view(),
            ps == prefixes.deep_view(),
            full == spec_prefix_name(ps, name@),
            writer@ == old(writer)@ + spec_bucket_lines(full, ls, bsv.take(i as int)),
        decreases n - i,
    {
        write_prefix_name(writer, prefixes, name);
        writer.append("_bucket");
        let mut le_labels = clone_labels(labels);
        le_labels.push(("le".to_owned(), bs[i].0.text.clone()));
        proof {
            assert(le_labels.deep_view() =~= ls.push(("le"@, bsv[i as int].0.text)));
        }
        write_labels(writer, &le_labels);
        writer.append(" ");
        encode_u64(writer, bs[i].1);
        writer.append("\n");
        proof {
            lemma_bucket_lines_snoc(full, ls, bsv, i as int);
            assert(writer@ =~= old(writer)@ + spec_bucket_lines(full, ls, bsv.take(i + 1)));
        }
        i += 1;
    }
    proof {
        assert(bsv.take(n as int) =~= bsv);
    }
    write_prefix_name(writer, prefixes, name);
    writer.append("_sum");
    write_labels(writer, labels);
    writer.append(" ");
    let s = h.sum();
    writer.append(s.text.as_str());
    writer.append("\n");
    write_prefix_name(writer, prefixes, name);
    writer.append("_count");
    write_labels(writer, labels);
    writer.append(" ");
    encode_u64(writer, h.count());
    writer.append("\n");
    proof {
        assert(final(writer)@ =~= old(writer)@ + spec_sample_lines(
            full,
            ls,
            spec_metric_value(crate::metrics::MetricV::Histogram(h.deep_view())),
        ));
    }
}

impl MetricItem {
    /// Appends this item's OpenMetrics rendering: `# HELP` and `# TYPE` lines,
    /// then its sample lines, under the given prefixes and labels.
    #[verifier::rlimit(80)]
    pub fn encode_openmetrics(
        &self,
        writer: &mut String,
        prefixes: &Vec<&str>,
        labels: &Vec<(String, String)>,
    )
        requires
            item_wf(self.deep_view()),
        ensures
            final(writer)@ == old(writer)@ + spec_item_om(
                prefixes.deep_view(),
                labels.deep_view(),
                self.deep_view(),
            ),
    {
        let ghost ps = prefixes.deep_view();
        let ghost ls = labels.deep_view();
        let ghost full = spec_prefix_name(ps, self.deep_view().name);
        proof {
            lemma_metric_type_of_value(self.deep_view().metric);
        }
        writer.append("# HELP ");
        write_prefix_name(writer, prefixes, self.name.as_str());
        writer.append(" ");
        writer.append(self.help.as_str());
        writer.append(".\n");
        writer.append("# TYPE ");
        write_prefix_name(writer, prefixes, self.name.as_str());
        writer.append(" ");
        writer.append(self.metric.kind().as_str());
        writer.append("\n");
        let ghost after_meta = writer@;
        proof {
            assert(after_meta =~= old(writer)@ + spec_meta_lines(
                full,
                self.deep_view().help,
                spec_value_type(spec_metric_value(self.deep_view().metric)),
            ));
        }
        match &self.metric {
            Metric::Counter(c) => {
                write_prefix_name(writer, prefixes, self.name.as_str());
                writer.append("_total");
                write_labels(writer, labels);
                writer.append(" ");
                encode_u64(writer, c.get());
                writer.append("\n");
                proof {
                    assert(final(writer)@ =~= old(writer)@ + spec_item_om(
                        ps,
                        ls,
                        self.deep_view(),
                    ));
                }
            },
            Metric::Gauge(g) => {
                write_prefix_name(writer, prefixes, self.name.as_str());
                write_labels(writer, labels);
                writer.append(" ");
                encode_i64(writer, g.get());
                writer.append("\n");
                proof {
                    assert(final(writer)@ =~= old(writer)@ + spec_item_om(
                        ps,
                        ls,
                        self.deep_view(),
                    ));
                }
            },
            Metric::Histogram(h) => {
                write_histogram_samples(writer, prefixes, labels, self.name.as_str(), h);
                proof {
                    assert(final(writer)@ =~= old(writer)@ + spec_item_om(
                        ps,
                        ls,
                        self.deep_view(),
                    ));
                }
            },
        }
    }
}

/// The prefix segments a group's metrics render under: the registry node's
/// prefix, if any, then the group's name.
pub open spec fn spec_group_prefixes(prefix: Option<Seq<char>>, g: MetricsGroupV) -> Seq<
    Seq<char>,
> {
    match prefix {
        Some(p) => seq![p, g.name],
        None => seq![g.name],
    }
}

/// The rendering of one group under a registry node's prefix and labels.
pub open spec fn spec_group_om(
    prefix: Option<Seq<char>>,
    labels: Seq<(Seq<char>, Seq<char>)>,
    g: MetricsGroupV,
) -> Seq<char> {
    spec_items_om(spec_group_prefixes(prefix, g), labels, g.items)
}

/// The rendering of a sequence of groups under one node's prefix and labels.
pub open spec fn spec_groups_om(
    prefix: Option<Seq<char>>,
    labels: Seq<(Seq<char>, Seq<char>)>,
    gs: Seq<MetricsGroupV>,
) -> Seq<char>
    decreases gs.len(),
{
    if gs.len() == 0 {
        Seq::empty()
    } else {
        spec_group_om(prefix, labels, gs[0]) + spec_groups_om(prefix, labels, gs.drop_first())
    }
}

/// Extending the rendered groups by one more group appends its rendering.
pub proof fn lemma_groups_om_snoc(
    prefix: Option<Seq<char>>,
    labels: Seq<(Seq<char>, Seq<char>)>,
    gs: Seq<MetricsGroupV>,
    k: int,
)
    requires
        0 <= k < gs.len(),
    ensures
        spec_groups_om(prefix, labels, gs.take(k + 1)) == spec_groups_om(
            prefix,
            labels,
            gs.take(k),
        ) + spec_group_om(prefix, labels, gs[k]),
    decreases k,
{
    if k == 0 {
        assert(gs.take(1) =~= seq![gs[0]]);
        assert(gs.take(1).drop_first() =~= Seq::<MetricsGroupV>::empty());
        assert(gs.take(0) =~= Seq::<MetricsGroupV>::empty());
        assert(spec_groups_om(prefix, labels, gs.take(1)) =~= spec_groups_om(
            prefix,
            labels,
            gs.take(0),
        ) + spec_group_om(prefix, labels, gs[0]));
    } else {
        lemma_groups_om_snoc(prefix, labels, gs.drop_first(), k - 1);
        assert(gs.take(k + 1)[0] == gs[0]);
        assert(gs.take(k + 1).drop_first() =~= gs.drop_first().take(k));
        assert(gs.take(k).drop_first() =~= gs.drop_first().take(k - 1));
        assert(gs.drop_first()[k - 1] == gs[k]);
        assert(spec_groups_om(prefix, labels, gs.take(k + 1)) =~= spec_groups_om(
            prefix,
            labels,
            gs.take(k),
        ) + spec_group_om(prefix, labels, gs[k]));
    }
}

impl MetricsGroup {
    /// Appends this group's OpenMetrics rendering: every item under the given
    /// node prefix (if any) followed by this group's name, with the given
    /// labels.
    pub fn encode_openmetrics(
        &self,
        writer: &mut String,
        prefix: Option<&str>,
        labels: &Vec<(String, String)>,
    )
        requires
            group_wf(self.deep_view()),
        ensures
            final(writer)@ == old(writer)@ + spec_group_om(
                prefix.deep_view(),
                labels.deep_view(),
                self.deep_view(),
            ),
    {
        let mut prefixes: Vec<&str> = Vec::new();
        match prefix {
            Some(p) => {
                prefixes.push(p);
            },
            None => {},
        }
        prefixes.push(self.name());
        proof {
            assert(prefixes.deep_view() =~= spec_group_prefixes(
                prefix.deep_view(),
                self.deep_view(),
            ));
        }
        let ghost ps = prefixes.deep_view();
        let ghost ls = labels.deep_view();
        let ghost itemsv = self.deep_view().items;
        let n = self.items.len();
        let mut i: usize = 0;
        while i < n
            invariant
                i <= n,
                n == self.items@.len(),
                itemsv == self.deep_view().items,
                group_wf(self.deep_view()),
                ps == prefixes.deep_view(),
                ls == labels.deep_view(),
                writer@ == old(writer)@ + spec_items_om(ps, ls, itemsv.take(i as int)),
            decreases n - i,
        {
            proof {
                assert(item_wf(self.deep_view().items[i as int]));
                assert(self.deep_view().items[i as int] == self.items@[i as int].deep_view());
            }
            self.items[i].encode_openmetrics(writer, &prefixes, labels);
            proof {
                lemma_items_om_snoc(ps, ls, itemsv, i as int);
                assert(writer@ =~= old(writer)@ + spec_items_om(ps, ls, itemsv.take(i + 1)));
            }
            i += 1;
        }
        proof {
            assert(itemsv.take(n as int) =~= itemsv);
        }
    }
}

/// Identity descriptor of one metric instance in a snapshot: its kind, name,
/// help, prefix segments and label pairs.
#[derive(Debug, PartialEq)]
pub struct ItemSchema {
    /// The metric's kind.
    pub kind: MetricType,
    /// The metric's name.
    pub name: String,
    /// The metric's help text (empty when help is suppressed).
    pub help: String,
    /// The prefix segments the metric renders under, outer first; the last is
    /// the owning group's name.
    pub prefixes: Vec<String>,
    /// The label pairs the metric renders with.
    pub labels: Vec<(String, String)>,
}

/// Mathematical model of an [`ItemSchema`].
pub ghost struct ItemSchemaV {
    /// The metric's kind.
    pub kind: MetricType,
    /// The metric's name.
    pub name: Seq<char>,
    /// The metric's help text.
    pub help: Seq<char>,
    /// The prefix segments.
    pub prefixes: Seq<Seq<char>>,
    /// The label pairs.
    pub labels: Seq<(Seq<char>, Seq<char>)>,
}

impl DeepView for ItemSchema {
    type V = ItemSchemaV;

    open spec fn deep_view(&self) -> ItemSchemaV {
        ItemSchemaV {
            kind: self.kind,
            name: self.name@,
            help: self.help@,
            prefixes: self.prefixes.deep_view(),
            labels: self.labels.deep_view(),
        }
    }
}

/// The schema of a snapshot: one identity descriptor per metric, in traversal
/// order.
#[derive(Debug, PartialEq)]
pub struct Schema {
    /// The identity descriptors.
    pub items: Vec<ItemSchema>,
}

impl DeepView for Schema {
    type V = Seq<ItemSchemaV>;

    open spec fn deep_view(&self) -> Seq<ItemSchemaV> {
        self.items.deep_view()
    }
}

impl Default for Schema {
    fn default() -> (r: Schema)
        ensures
            r.deep_view().len() == 0,
    {
        Schema { items: Vec::new() }
    }
}

/// The values of a snapshot: one value per metric, aligned positionally with
/// the schema of the same traversal.
#[derive(Debug, PartialEq)]
pub struct Values {
    /// The metric values.
    pub items: Vec<MetricValue>,
}

impl DeepView for Values {
    type V = Seq<MetricValueV>;

    open spec fn deep_view(&self) -> Seq<MetricValueV> {
        self.items.deep_view()
    }
}

impl Default for Values {
    fn default() -> (r: Values)
        ensures
            r.deep_view().len() == 0,
    {
        Values { items: Vec::new() }
    }
}

/// One exported snapshot: a schema when it changed since the previous export,
/// and the current values.
#[derive(Debug, PartialEq)]
pub struct Update {
    /// The schema, present only when it changed since the last export.
    pub schema: Option<Schema>,
    /// The current values.
    pub values: Values,
}

/// Mathematical model of an [`Update`].
pub ghost struct UpdateV {
    /// The schema, when present.
    pub schema: Option<Seq<ItemSchemaV>>,
    /// The values.
    pub values: Seq<MetricValueV>,
}

impl DeepView for Update {
    type V = UpdateV;

    open spec fn deep_view(&self) -> UpdateV {
        UpdateV {
            schema: match &self.schema {
                Some(s) => Some(s.deep_view()),
                None => None,
            },
            values: self.values.deep_view(),
        }
    }
}

/// The identity descriptor of one item under the given prefixes and labels.
pub open spec fn spec_item_schema(
    prefixes: Seq<Seq<char>>,
    labels: Seq<(Seq<char>, Seq<char>)>,
    it: MetricItemV,
    with_help: bool,
) -> ItemSchemaV {
    ItemSchemaV {
        kind: spec_metric_type(it.metric),
        name: it.name,
        help: if with_help {
            it.help
        } else {
            Seq::empty()
        },
        prefixes,
        labels,
    }
}

/// The identity descriptors of a sequence of items.
pub open spec fn spec_items_schema(
    prefixes: Seq<Seq<char>>,
    labels: Seq<(Seq<char>, Seq<char>)>,
    items: Seq<MetricItemV>,
    with_help: bool,
) -> Seq<ItemSchemaV> {
    Seq::new(items.len(), |i: int| spec_item_schema(prefixes, labels, items[i], with_help))
}

/// The identity descriptors of one group's items.
pub open spec fn spec_group_schema(
    prefix: Option<Seq<char>>,
    labels: Seq<(Seq<char>, Seq<char>)>,
    g: MetricsGroupV,
    with_help: bool,
) -> Seq<ItemSchemaV> {
    spec_items_schema(spec_group_prefixes(prefix, g), labels, g.items, with_help)
}

/// The identity descriptors of a sequence of groups.
pub open spec fn spec_groups_schema(
    prefix: Option<Seq<char>>,
    labels: Seq<(Seq<char>, Seq<char>)>,
    gs: Seq<MetricsGroupV>,
    with_help: bool,
) -> Seq<ItemSchemaV>
    decreases gs.len(),
{
    if gs.len() == 0 {
        Seq::empty()
    } else {
        spec_group_schema(prefix, labels, gs[0], with_help) + spec_groups_schema(
            prefix,
            labels,
            gs.drop_first(),
            with_help,
        )
    }
}

/// Extending the described groups by one more group appends its descriptors.
pub proof fn lemma_groups_schema_snoc(
    prefix: Option<Seq<char>>,
    labels: Seq<(Seq<char>, Seq<char>)>,
    gs: Seq<MetricsGroupV>,
    with_help: bool,
    k: int,
)
    requires
        0 <= k < gs.len(),
    ensures
        spec_groups_schema(prefix, labels, gs.take(k + 1), with_help) == spec_groups_schema(
            prefix,
            labels,
            gs.take(k),
            with_help,
        ) + spec_group_schema(prefix, labels, gs[k], with_help),
    decreases k,
{
    if k == 0 {
        assert(gs.take(1) =~= seq![gs[0]]);
        assert(gs.take(1).drop_first() =~= Seq::<MetricsGroupV>::empty());
        assert(gs.take(0) =~= Seq::<MetricsGroupV>::empty());
        assert(spec_groups_schema(prefix, labels, gs.take(1), with_help) =~= spec_groups_schema(
            prefix,
            labels,
            gs.take(0),
            with_help,
        ) + spec_group_schema(prefix, labels, gs[0], with_help));
    } else {
        lemma_groups_schema_snoc(prefix, labels, gs.drop_first(), with_help, k - 1);
        assert(gs.take(k + 1)[0] == gs[0]);
        assert(gs.take(k + 1).drop_first() =~= gs.drop_first().take(k));
        assert(gs.take(k).drop_first() =~= gs.drop_first().take(k - 1));
        assert(gs.drop_first()[k - 1] == gs[k]);
        assert(spec_groups_schema(prefix, labels, gs.take(k + 1), with_help)
            =~= spec_groups_schema(prefix, labels, gs.take(k), with_help) + spec_group_schema(
            prefix,
            labels,
            gs[k],
            with_help,
        ));
    }
}

/// The value snapshots of a sequence of items.
pub open spec fn spec_items_values(items: Seq<MetricItemV>) -> Seq<MetricValueV> {
    Seq::new(items.len(), |i: int| spec_metric_value(items[i].metric))
}

/// The value snapshots of a sequence of groups.
pub open spec fn spec_groups_values(gs: Seq<MetricsGroupV>) -> Seq<MetricValueV>
    decreases gs.len(),
{
    if gs.len() == 0 {
        Seq::empty()
    } else {
        spec_items_values(gs[0].items) + spec_groups_values(gs.drop_first())
    }
}

/// Extending the valued groups by one more group appends its values.
pub proof fn lemma_groups_values_snoc(gs: Seq<MetricsGroupV>, k: int)
    requires
        0 <= k < gs.len(),
    ensures
        spec_groups_values(gs.take(k + 1)) == spec_groups_values(gs.take(k)) + spec_items_values(
            gs[k].items,
        ),
    decreases k,
{
    if k == 0 {
        assert(gs.take(1) =~= seq![gs[0]]);
        assert(gs.take(1).drop_first() =~= Seq::<MetricsGroupV>::empty());
        assert(gs.take(0) =~= Seq::<MetricsGroupV>::empty());
        assert(spec_groups_values(gs.take(1)) =~= spec_groups_values(gs.take(0))
            + spec_items_values(gs[0].items));
    } else {
        lemma_groups_values_snoc(gs.drop_first(), k - 1);
        assert(gs.take(k + 1)[0] == gs[0]);
        assert(gs.take(k + 1).drop_first() =~= gs.drop_first().take(k));
        assert(gs.take(k).drop_first() =~= gs.drop_first().take(k - 1));
        assert(gs.drop_first()[k - 1] == gs[k]);
        assert(spec_groups_values(gs.take(k + 1)) =~= spec_groups_values(gs.take(k))
            + spec_items_values(gs[k].items));
    }
}

impl MetricItem {
    /// Appends this item's identity descriptor to the schema.
    pub fn encode_schema(
        &self,
        schema: &mut Schema,
        prefixes: &Vec<&str>,
        labels: &Vec<(String, String)>,
        include_help: bool,
    )
        ensures
            final(schema).deep_view() == old(schema).deep_view().push(
                spec_item_schema(
                    prefixes.deep_view(),
                    labels.deep_view(),
                    self.deep_view(),
                    include_help,
                ),
            ),
    {
        let mut owned_prefixes: Vec<String> = Vec::new();
        let mut i: usize = 0;
        while i < prefixes.len()
            invariant
                i <= prefixes@.len(),
                owned_prefixes@.len() == i,
                forall|j: int|
                    0 <= j < i ==> #[trigger] owned_prefixes@[j]@ == prefixes@[j]@,
            decreases prefixes@.len() - i,
        {
            owned_prefixes.push(prefixes[i].to_owned());
            i += 1;
        }
        proof {
            assert(owned_prefixes.deep_view() =~~= prefixes.deep_view());
        }
        let help: String = if include_help {
            self.help.clone()
        } else {
            String::new()
        };
        let item = ItemSchema {
            kind: self.metric.kind(),
            name: self.name.clone(),
            help,
            prefixes: owned_prefixes,
            labels: clone_labels(labels),
        };
        proof {
            assert(item.deep_view() == spec_item_schema(
                prefixes.deep_view(),
                labels.deep_view(),
                self.deep_view(),
                include_help,
            ));
        }
        schema.items.push(item);
        proof {
            assert(final(schema).deep_view() =~= old(schema).deep_view().push(
                spec_item_schema(
                    prefixes.deep_view(),
                    labels.deep_view(),
                    self.deep_view(),
                    include_help,
                ),
            ));
        }
    }

    /// Appends this item's current value to the values.
    pub fn encode_value(&self, values: &mut Values)
        requires
            item_wf(self.deep_view()),
        ensures
            final(values).deep_view() == old(values).deep_view().push(
                spec_metric_value(self.deep_view().metric),
            ),
    {
        values.items.push(self.metric.value());
        proof {
            assert(final(values).deep_view() =~= old(values).deep_view().push(
                spec_metric_value(self.deep_view().metric),
            ));
        }
    }
}

impl MetricsGroup {
    /// Appends one identity descriptor per item of this group to the schema.
    pub fn encode_schema(
        &self,
        schema: &mut Schema,
        prefix: Option<&str>,
        labels: &Vec<(String, String)>,
        include_help: bool,
    )
        ensures
            final(schema).deep_view() == old(schema).deep_view() + spec_group_schema(
                prefix.deep_view(),
                labels.deep_view(),
                self.deep_view(),
                include_help,
            ),
    {
        let mut prefixes: Vec<&str> = Vec::new();
        match prefix {
            Some(p) => {
                prefixes.push(p);
            },
            None => {},
        }
        prefixes.push(self.name.as_str());
        proof {
            assert(prefixes.deep_view() =~= spec_group_prefixes(
                prefix.deep_view(),
                self.deep_view(),
            ));
        }
        let ghost ps = prefixes.deep_view();
        let ghost ls = labels.deep_view();
        let ghost itemsv = self.deep_view().items;
        let n = self.items.len();
        let mut i: usize = 0;
        while i < n
            invariant
                i <= n,
                n == self.items@.len(),
                itemsv == self.deep_view().items,
                ps == prefixes.deep_view(),
                ls == labels.deep_view(),
                schema.deep_view() =~= old(schema).deep_view() + spec_items_schema(
                    ps,
                    ls,
                    itemsv,
                    include_help,
                ).take(i as int),
            decreases n - i,
        {
            self.items[i].encode_schema(schema, &prefixes, labels, include_help);
            proof {
                assert(self.items@[i as int].deep_view() == itemsv[i as int]);
                assert(spec_items_schema(ps, ls, itemsv, include_help).take(i + 1)
                    =~= spec_items_schema(ps, ls, itemsv, include_help).take(i as int).push(
                    spec_item_schema(ps, ls, itemsv[i as int], include_help),
                ));
                assert(schema.deep_view() =~= old(schema).deep_view() + spec_items_schema(
                    ps,
                    ls,
                    itemsv,
                    include_help,
                ).take(i + 1));
            }
            i += 1;
        }
        proof {
            assert(spec_items_schema(ps, ls, itemsv, include_help).take(n as int)
                =~= spec_items_schema(ps, ls, itemsv, include_help));
            assert(final(schema).deep_view() =~= old(schema).deep_view() + spec_group_schema(
                prefix.deep_view(),
                ls,
                self.deep_view(),
                include_help,
            ));
        }
    }

    /// Appends one value per item of this group to the values.
    pub fn encode_values(&self, values: &mut Values)
        requires
            group_wf(self.deep_view()),
        ensures
            final(values).deep_view() == old(values).deep_view() + spec_items_values(
                self.deep_view().items,
            ),
    {
        let ghost itemsv = self.deep_view().items;
        let n = self.items.len();
        let mut i: usize = 0;
        while i < n
            invariant
                i <= n,
                n == self.items@.len(),
                itemsv == self.deep_view().items,
                group_wf(self.deep_view()),
                values.deep_view() =~= old(values).deep_view() + spec_items_values(itemsv).take(
                    i as int,
                ),
            decreases n - i,
        {
            proof {
                assert(item_wf(self.deep_view().items[i as int]));
                assert(self.items@[i as int].deep_view() == itemsv[i as int]);
            }
            self.items[i].encode_value(values);
            proof {
                assert(spec_items_values(itemsv).take(i + 1) =~= spec_items_values(itemsv).take(
                    i as int,
                ).push(spec_metric_value(itemsv[i as int].metric)));
                assert(values.deep_view() =~= old(values).deep_view() + spec_items_values(
                    itemsv,
                ).take(i + 1));
            }
            i += 1;
        }
        proof {
            assert(spec_items_values(itemsv).take(n as int) =~= spec_items_values(itemsv));
        }
    }
}

/// The rendering of one schema descriptor together with a transported value.
pub open spec fn spec_pair_om(s: ItemSchemaV, v: MetricValueV) -> Seq<char> {
    spec_render_one(s.prefixes, s.labels, s.name, s.help, v)
}

/// The rendering of positionally aligned schema descriptors and values; the
/// shorter of the two sequences bounds the output.
pub open spec fn spec_pairs_om(ss: Seq<ItemSchemaV>, vs: Seq<MetricValueV>) -> Seq<char>
    decreases ss.len(),
{
    if ss.len() == 0 || vs.len() == 0 {
        Seq::empty()
    } else {
        spec_pair_om(ss[0], vs[0]) + spec_pairs_om(ss.drop_first(), vs.drop_first())
    }
}

/// Extending the rendered pairs by one more pair appends its rendering.
pub proof fn lemma_pairs_om_snoc(ss: Seq<ItemSchemaV>, vs: Seq<MetricValueV>, k: int)
    requires
        0 <= k < ss.len(),
        k < vs.len(),
    ensures
        spec_pairs_om(ss.take(k + 1), vs.take(k + 1)) == spec_pairs_om(ss.take(k), vs.take(k))
            + spec_pair_om(ss[k], vs[k]),
    decreases k,
{
    if k == 0 {
        assert(ss.take(1) =~= seq![ss[0]]);
        assert(vs.take(1) =~= seq![vs[0]]);
        assert(ss.take(1).drop_first() =~= Seq::<ItemSchemaV>::empty());
        assert(vs.take(1).drop_first() =~= Seq::<MetricValueV>::empty());
        assert(ss.take(0) =~= Seq::<ItemSchemaV>::empty());
        assert(vs.take(0) =~= Seq::<MetricValueV>::empty());
        assert(spec_pairs_om(Seq::<ItemSchemaV>::empty(), Seq::<MetricValueV>::empty())
            == Seq::<char>::empty());
        assert(spec_pairs_om(ss.take(1), vs.take(1)) =~= spec_pairs_om(ss.take(0), vs.take(0))
            + spec_pair_om(ss[0], vs[0]));
    } else {
        lemma_pairs_om_snoc(ss.drop_first(), vs.drop_first(), k - 1);
        assert(ss.take(k + 1)[0] == ss[0]);
        assert(vs.take(k + 1)[0] == vs[0]);
        assert(ss.take(k + 1).drop_first() =~= ss.drop_first().take(k));
        assert(vs.take(k + 1).drop_first() =~= vs.drop_first().take(k));
        assert(ss.take(k).drop_first() =~= ss.drop_first().take(k - 1));
        assert(vs.take(k).drop_first() =~= vs.drop_first().take(k - 1));
        assert(ss.drop_first()[k - 1] == ss[k]);
        assert(vs.drop_first()[k - 1] == vs[k]);
        assert(spec_pairs_om(ss.take(k + 1), vs.take(k + 1)) =~= spec_pairs_om(
            ss.take(k),
            vs.take(k),
        ) + spec_pair_om(ss[k], vs[k]));
    }
}

/// Appends the sample lines of one transported metric value.
#[verifier::rlimit(80)]
fn write_value_samples(
    writer: &mut String,
    prefixes: &Vec<&str>,
    labels: &Vec<(String, String)>,
    name: &str,
    v: &MetricValue,
)
    ensures
        final(writer)@ == old(writer)@ + spec_sample_lines(
            spec_prefix_name(prefixes.deep_view(), name@),
            labels.deep_view(),
            v.deep_view(),
        ),
{
    let ghost ps = prefixes.deep_view();
    let ghost ls = labels.deep_view();
    let ghost full = spec_prefix_name(ps, name@);
    match v {
        MetricValue::Counter(c) => {
            write_prefix_name(writer, prefixes, name);
            writer.append("_total");
            write_labels(writer, labels);
            writer.append(" ");
            encode_u64(writer, *c);
            writer.append("\n");
            proof {
                assert(final(writer)@ =~= old(writer)@ + spec_sample_lines(
                    full,
                    ls,
                    v.deep_view(),
                ));
            }
        },
        MetricValue::Gauge(g) => {
            write_prefix_name(writer, prefixes, name);
            write_labels(writer, labels);
            writer.append(" ");
            encode_i64(writer, *g);
            writer.append("\n");
            proof {
                assert(final(writer)@ =~= old(writer)@ + spec_sample_lines(
                    full,
                    ls,
                    v.deep_view(),
                ));
            }
        },
        MetricValue::Histogram { buckets, sum, count } => {
            let ghost bsv = buckets.deep_view();
            let n = buckets.len();
            let mut i: usize = 0;
            while i < n
                invariant
                    i <= n,
                    n == buckets@.len(),
                    bsv == buckets.deep_view(),
                    ls == labels.deep_view(),
                    ps == prefixes.deep_view(),
                    full == spec_prefix_name(ps, name@),
                    writer@ == old(writer)@ + spec_bucket_lines(full, ls, bsv.take(i as int)),
                decreases n - i,
            {
                write_prefix_name(writer, prefixes, name);
                writer.append("_bucket");
                let mut le_labels = clone_labels(labels);
                le_labels.push(("le".to_owned(), buckets[i].0.text.clone()));
                proof {
                    assert(le_labels.deep_view() =~= ls.push(("le"@, bsv[i as int].0.text)));
                }
                write_labels(writer, &le_labels);
                writer.append(" ");
                encode_u64(writer, buckets[i].1);
                writer.append("\n");
                proof {
                    lemma_bucket_lines_snoc(full, ls, bsv, i as int);
                    assert(writer@ =~= old(writer)@ + spec_bucket_lines(
                        full,
                        ls,
                        bsv.take(i + 1),
                    ));
                }
                i += 1;
            }
            proof {
                assert(bsv.take(n as int) =~= bsv);
            }
            write_prefix_name(writer, prefixes, name);
            writer.append("_sum");
            write_labels(writer, labels);
            writer.append(" ");
            writer.append(sum.text.as_str());
            writer.append("\n");
            write_prefix_name(writer, prefixes, name);
            writer.append("_count");
            write_labels(writer, labels);
            writer.append(" ");
            encode_u64(writer, *count);
            writer.append("\n");
            proof {
                assert(final(writer)@ =~= old(writer)@ + spec_sample_lines(
                    full,
                    ls,
                    v.deep_view(),
                ));
            }
        },
    }
}

/// One decoded metric: a schema descriptor beside its transported value.
#[derive(Debug)]
pub struct Item<'a> {
    /// The metric's identity descriptor.
    pub schema: &'a ItemSchema,
    /// The metric's transported value.
    pub value: &'a MetricValue,
}

impl<'a> Item<'a> {
    /// Appends this metric's OpenMetrics rendering.  Writing to an in-memory
    /// buffer cannot fail, so the result is always `Ok`.
    pub fn encode_openmetrics(&self, writer: &mut String) -> (r: Result<(), crate::Error>)
        ensures
            r is Ok,
            final(writer)@ == old(writer)@ + spec_pair_om(
                self.schema.deep_view(),
                self.value.deep_view(),
            ),
    {
        let ghost sv = self.schema.deep_view();
        let mut prefixes: Vec<&str> = Vec::new();
        let mut i: usize = 0;
        while i < self.schema.prefixes.len()
            invariant
                i <= self.schema.prefixes@.len(),
                prefixes@.len() == i,
                forall|j: int|
                    0 <= j < i ==> #[trigger] prefixes@[j]@ == self.schema.prefixes@[j]@,
            decreases self.schema.prefixes@.len() - i,
        {
            prefixes.push(self.schema.prefixes[i].as_str());
            i += 1;
        }
        proof {
            assert(prefixes.deep_view() =~~= sv.prefixes);
        }
        let ghost full = spec_prefix_name(sv.prefixes, sv.name);
        writer.append("# HELP ");
        write_prefix_name(writer, &prefixes, self.schema.name.as_str());
        writer.append(" ");
        writer.append(self.schema.help.as_str());
        writer.append(".\n");
        writer.append("# TYPE ");
        write_prefix_name(writer, &prefixes, self.schema.name.as_str());
        writer.append(" ");
        writer.append(self.value.kind().as_str());
        writer.append("\n");
        proof {
            assert(writer@ =~= old(writer)@ + spec_meta_lines(
                full,
                sv.help,
                spec_value_type(self.value.deep_view()),
            ));
        }
        write_value_samples(writer, &prefixes, &self.schema.labels, self.schema.name.as_str(), self.value);
        proof {
            assert(final(writer)@ =~= old(writer)@ + spec_pair_om(sv, self.value.deep_view()));
        }
        Ok(())
    }
}

/// Decoder for metric snapshots received from an [`Encoder`].
///
/// Holds the most recently received schema and values, and renders them to
/// the same OpenMetrics text the originating registry renders to.
#[derive(Debug)]
pub struct Decoder {
    /// The most recently received schema, if any arrived yet.
    pub schema: Option<Schema>,
    /// The most recently received values.
    pub values: Values,
}

impl Default for Decoder {
    fn default() -> (r: Decoder)
        ensures
            r.schema is None,
            r.values.deep_view().len() == 0,
    {
        Decoder { schema: None, values: Values { items: Vec::new() } }
    }
}

/// How many aligned schema/value pairs a decoder holds.
pub open spec fn spec_decoder_pairs(d: Decoder) -> int {
    match d.schema {
        None => 0,
        Some(s) => if s.deep_view().len() <= d.values.deep_view().len() {
            s.deep_view().len() as int
        } else {
            d.values.deep_view().len() as int
        },
    }
}

/// The OpenMetrics text rendered from a transported snapshot: the aligned
/// pairs when a schema is present, then the `# EOF` line.
pub open spec fn spec_render_snapshot(
    schema: Option<Seq<ItemSchemaV>>,
    values: Seq<MetricValueV>,
) -> Seq<char> {
    (match schema {
        None => Seq::<char>::empty(),
        Some(ss) => spec_pairs_om(ss, values),
    }) + "# EOF\n"@
}

/// The OpenMetrics text a decoder renders: its aligned pairs, then the `# EOF`
/// line.
pub open spec fn spec_decoder_text(d: Decoder) -> Seq<char> {
    spec_render_snapshot(
        match d.schema {
            None => None,
            Some(s) => Some(s.deep_view()),
        },
        d.values.deep_view(),
    )
}

impl Decoder {
    /// Takes an update in: replaces the stored schema when the update carries
    /// one, and always replaces the stored values.
    pub fn import(&mut self, update: Update)
        ensures
            update.schema is Some ==> final(self).schema == update.schema,
            update.schema is None ==> final(self).schema == old(self).schema,
            final(self).values == update.values,
    {
        match update.schema {
            Some(s) => {
                self.schema = Some(s);
            },
            None => {},
        }
        self.values = update.values;
    }

    /// Returns an iterator over the aligned schema/value pairs.
    pub fn iter(&self) -> (r: DecoderIter<'_>)
        ensures
            r.spec_pos() == 0,
            r.spec_decoder() == self,
    {
        DecoderIter { pos: 0, inner: self }
    }

    /// Appends the OpenMetrics rendering of the stored pairs, terminated by
    /// the `# EOF` line.  Writing to an in-memory buffer cannot fail, so the
    /// result is always `Ok`.
    pub fn encode_openmetrics(&self, writer: &mut String) -> (r: Result<(), crate::Error>)
        ensures
            r is Ok,
            final(writer)@ == old(writer)@ + spec_decoder_text(*self),
    {
        match &self.schema {
            None => {},
            Some(schema) => {
                let ghost ss = schema.deep_view();
                let ghost vs = self.values.deep_view();
                let n: usize = if schema.items.len() <= self.values.items.len() {
                    schema.items.len()
                } else {
                    self.values.items.len()
                };
                let mut i: usize = 0;
                while i < n
                    invariant
                        i <= n,
                        n <= schema.items@.len(),
                        n <= self.values.items@.len(),
                        n == spec_decoder_pairs(*self),
                        ss == schema.deep_view(),
                        vs == self.values.deep_view(),
                        self.schema == Some(*schema),
                        writer@ == old(writer)@ + spec_pairs_om(ss.take(i as int), vs.take(
                            i as int,
                        )),
                    decreases n - i,
                {
                    let item = Item {
                        schema: &schema.items[i],
                        value: &self.values.items[i],
                    };
                    let _ = item.encode_openmetrics(writer);
                    proof {
                        lemma_pairs_om_snoc(ss, vs, i as int);
                        assert(writer@ =~= old(writer)@ + spec_pairs_om(
                            ss.take(i + 1),
                            vs.take(i + 1),
                        ));
                    }
                    i += 1;
                }
                proof {
                    if ss.len() <= vs.len() {
                        assert(ss.take(n as int) =~= ss);
                        lemma_pairs_om_stops(ss, vs, n as int);
                    } else {
                        assert(vs.take(n as int) =~= vs);
                        lemma_pairs_om_stops(ss, vs, n as int);
                    }
                    assert(writer@ =~= old(writer)@ + spec_pairs_om(ss, vs));
                }
            },
        }
        write_eof(writer);
        proof {
            assert(final(writer)@ =~= old(writer)@ + spec_decoder_text(*self));
        }
        Ok(())
    }

    /// Encodes the stored pairs into a new string in the OpenMetrics text
    /// format.
    pub fn encode_openmetrics_to_string(&self) -> (r: Result<String, crate::Error>)
        ensures
            r is Ok,
            r->Ok_0@ == spec_decoder_text(*self),
    {
        let mut s = String::new();
        let _ = self.encode_openmetrics(&mut s);
        proof {
            assert(s@ =~= spec_decoder_text(*self));
        }
        Ok(s)
    }
}

/// Rendering aligned pairs consumes exactly the aligned portion: past the
/// shorter sequence nothing renders.
pub proof fn lemma_pairs_om_stops(ss: Seq<ItemSchemaV>, vs: Seq<MetricValueV>, n: int)
    requires
        n == if ss.len() <= vs.len() {
            ss.len() as int
        } else {
            vs.len() as int
        },
    ensures
        spec_pairs_om(ss.take(n), vs.take(n)) == spec_pairs_om(ss, vs),
    decreases n,
{
    if n == 0 {
        assert(ss.take(0).len() == 0);
        assert(ss.len() == 0 || vs.len() == 0);
    } else {
        assert(ss.take(n)[0] == ss[0]);
        assert(vs.take(n)[0] == vs[0]);
        assert(ss.take(n).drop_first() =~= ss.drop_first().take(n - 1));
        assert(vs.take(n).drop_first() =~= vs.drop_first().take(n - 1));
        lemma_pairs_om_stops(ss.drop_first(), vs.drop_first(), n - 1);
    }
}

/// Iterator over the aligned schema/value pairs of a [`Decoder`].
#[derive(Debug)]
pub struct DecoderIter<'a> {
    pos: usize,
    inner: &'a Decoder,
}

impl<'a> DecoderIter<'a> {
    /// The position of the next pair to hand out.
    pub closed spec fn spec_pos(&self) -> int {
        self.pos as int
    }

    /// The decoder being iterated.
    pub closed spec fn spec_decoder(&self) -> &'a Decoder {
        self.inner
    }

    /// Hands out the next aligned pair, in schema order, until either the
    /// schema or the values run out.
    pub fn next(&mut self) -> (r: Option<Item<'a>>)
        ensures
            final(self).spec_decoder() == old(self).spec_decoder(),
            old(self).spec_pos() < spec_decoder_pairs(*old(self).spec_decoder()) ==> {
                &&& r is Some
                &&& final(self).spec_pos() == old(self).spec_pos() + 1
                &&& r->Some_0.schema.deep_view() == old(
                    self,
                ).spec_decoder().schema->Some_0.deep_view()[old(self).spec_pos()]
                &&& r->Some_0.value.deep_view() == old(
                    self,
                ).spec_decoder().values.deep_view()[old(self).spec_pos()]
            },
            old(self).spec_pos() >= spec_decoder_pairs(*old(self).spec_decoder()) ==> {
                &&& r is None
                &&& final(self).spec_pos() == old(self).spec_pos()
            },
    {
        match &self.inner.schema {
            None => None,
            Some(schema) => {
                if self.pos < schema.items.len() && self.pos < self.inner.values.items.len() {
                    let item = Item {
                        schema: &schema.items[self.pos],
                        value: &self.inner.values.items[self.pos],
                    };
                    self.pos = self.pos + 1;
                    Some(item)
                } else {
                    None
                }
            },
        }
    }
}

impl crate::registry::MetricsSource for Decoder {
    open spec fn source_wf(&self) -> bool {
        true
    }

    open spec fn spec_openmetrics_text(&self) -> Seq<char> {
        spec_decoder_text(*self)
    }

    fn encode_openmetrics_to_string(&self) -> (r: Result<String, crate::Error>) {
        let mut s = String::new();
        let _ = self.encode_openmetrics(&mut s);
        proof {
            assert(s@ =~= spec_decoder_text(*self));
        }
        Ok(s)
    }
}

/// Options for an [`Encoder`].
#[derive(Debug, Clone, Copy)]
pub struct EncoderOpts {
    /// Whether exported schemas carry the help texts; switching this off
    /// shrinks the payload when the consumer does not need them.
    pub include_help: bool,
}

impl Default for EncoderOpts {
    fn default() -> (r: EncoderOpts)
        ensures
            r.include_help == true,
    {
        EncoderOpts { include_help: true }
    }
}

/// What an export hands out: a schema exactly when the registry's schema
/// version differs from the encoder's last exported version, and always the
/// current values.
pub open spec fn spec_export(last: u64, with_help: bool, r: RegistryV) -> UpdateV {
    UpdateV {
        schema: if spec_schema_version(r) == last {
            None
        } else {
            Some(spec_registry_schema(r, with_help))
        },
        values: spec_registry_values(r),
    }
}

/// Snapshot encoder: exports a registry's schema and values as [`Update`]s,
/// re-sending the schema only when it changed.
#[derive(Debug)]
pub struct Encoder {
    last_schema_version: u64,
    opts: EncoderOpts,
}

impl Encoder {
    /// The schema version of the most recent export (zero before the first).
    pub closed spec fn spec_last_version(&self) -> u64 {
        self.last_schema_version
    }

    /// Whether exported schemas carry help texts.
    pub closed spec fn spec_include_help(&self) -> bool {
        self.opts.include_help
    }

    /// Constructs an encoder that has exported nothing yet and includes help
    /// texts in its schemas.
    pub fn new() -> (r: Encoder)
        ensures
            r.spec_last_version() == 0,
            r.spec_include_help() == true,
    {
        Encoder { last_schema_version: 0, opts: EncoderOpts { include_help: true } }
    }

    /// Constructs an encoder that has exported nothing yet, with the given
    /// options.
    pub fn new_with_opts(opts: EncoderOpts) -> (r: Encoder)
        ensures
            r.spec_last_version() == 0,
            r.spec_include_help() == opts.include_help,
    {
        Encoder { last_schema_version: 0, opts }
    }

    /// Exports the registry's current state: the schema when its version
    /// differs from the last export, and always the current values.
    pub fn export(&mut self, registry: &Registry) -> (r: Update)
        requires
            registry_wf(registry.deep_view()),
        ensures
            final(self).spec_include_help() == old(self).spec_include_help(),
            final(self).spec_last_version() == spec_schema_version(registry.deep_view()),
            r.deep_view() == spec_export(
                old(self).spec_last_version(),
                old(self).spec_include_help(),
                registry.deep_view(),
            ),
    {
        let ghost rv = registry.deep_view();
        let current = registry.schema_version();
        proof {
            assert(current == spec_schema_version(rv));
        }
        let schema_opt: Option<Schema> = if current != self.last_schema_version {
            self.last_schema_version = current;
            let mut schema = Schema { items: Vec::new() };
            proof {
                assert(schema.deep_view() =~= Seq::<ItemSchemaV>::empty());
            }
            registry.encode_schema(&mut schema, self.opts.include_help);
            proof {
                assert(schema.deep_view() =~= spec_registry_schema(
                    rv,
                    old(self).spec_include_help(),
                ));
            }
            Some(schema)
        } else {
            None
        };
        let mut values = Values { items: Vec::new() };
        proof {
            assert(values.deep_view() =~= Seq::<MetricValueV>::empty());
        }
        registry.encode_values(&mut values);
        proof {
            assert(values.deep_view() =~= spec_registry_values(rv));
        }
        let r = Update { schema: schema_opt, values };
        proof {
            assert(r.deep_view() == spec_export(
                old(self).spec_last_version(),
                old(self).spec_include_help(),
                rv,
            ));
        }
        r
    }
}

/// A group's schema descriptors and values are equally many (one per item).
pub proof fn lemma_groups_schema_values_len(
    prefix: Option<Seq<char>>,
    labels: Seq<(Seq<char>, Seq<char>)>,
    gs: Seq<MetricsGroupV>,
    with_help: bool,
)
    ensures
        spec_groups_schema(prefix, labels, gs, with_help).len() == spec_groups_values(gs).len(),
    decreases gs.len(),
{
    if gs.len() > 0 {
        lemma_groups_schema_values_len(prefix, labels, gs.drop_first(), with_help);
    }
}

/// A registry's schema descriptors and values are equally many.
pub proof fn lemma_registry_schema_values_len(r: RegistryV, with_help: bool)
    ensures
        spec_registry_schema(r, with_help).len() == crate::registry::spec_registry_values(
            r,
        ).len(),
    decreases r, 1int,
{
    lemma_groups_schema_values_len(r.prefix, r.labels, r.groups, with_help);
    lemma_subs_schema_values_len(r.subs, with_help);
}

/// A sub-registry list's schema descriptors and values are equally many.
pub proof fn lemma_subs_schema_values_len(subs: Seq<RegistryV>, with_help: bool)
    ensures
        crate::registry::spec_subs_schema(subs, with_help).len()
            == crate::registry::spec_subs_values(subs).len(),
    decreases subs, 0int,
{
    if subs.len() > 0 {
        lemma_registry_schema_values_len(subs[0], with_help);
        lemma_subs_schema_values_len(subs.drop_first(), with_help);
    }
}

/// Rendering aligned pairs distributes over concatenation, as long as the
/// first parts align exactly.
pub proof fn lemma_pairs_om_concat(
    s1: Seq<ItemSchemaV>,
    v1: Seq<MetricValueV>,
    s2: Seq<ItemSchemaV>,
    v2: Seq<MetricValueV>,
)
    requires
        s1.len() == v1.len(),
    ensures
        spec_pairs_om(s1 + s2, v1 + v2) == spec_pairs_om(s1, v1) + spec_pairs_om(s2, v2),
    decreases s1.len(),
{
    if s1.len() == 0 {
        assert(s1 + s2 =~= s2);
        assert(v1 + v2 =~= v2);
        assert(spec_pairs_om(s1, v1) == Seq::<char>::empty());
        assert(spec_pairs_om(s1, v1) + spec_pairs_om(s2, v2) =~= spec_pairs_om(s2, v2));
    } else {
        assert((s1 + s2)[0] == s1[0]);
        assert((v1 + v2)[0] == v1[0]);
        assert((s1 + s2).drop_first() =~= s1.drop_first() + s2);
        assert((v1 + v2).drop_first() =~= v1.drop_first() + v2);
        lemma_pairs_om_concat(s1.drop_first(), v1.drop_first(), s2, v2);
        assert(spec_pairs_om(s1 + s2, v1 + v2) =~= spec_pairs_om(s1, v1) + spec_pairs_om(s2, v2));
    }
}

/// Rendering a sequence of items from their schema descriptors and value
/// snapshots gives exactly the live rendering of those items.
pub proof fn lemma_items_roundtrip(
    prefixes: Seq<Seq<char>>,
    labels: Seq<(Seq<char>, Seq<char>)>,
    items: Seq<MetricItemV>,
)
    ensures
        spec_pairs_om(spec_items_schema(prefixes, labels, items, true), spec_items_values(items))
            == spec_items_om(prefixes, labels, items),
    decreases items.len(),
{
    let ss = spec_items_schema(prefixes, labels, items, true);
    let vs = spec_items_values(items);
    if items.len() == 0 {
        assert(ss.len() == 0);
        assert(spec_pairs_om(ss, vs) == Seq::<char>::empty());
    } else {
        lemma_items_roundtrip(prefixes, labels, items.drop_first());
        assert(ss[0] == spec_item_schema(prefixes, labels, items[0], true));
        assert(vs[0] == spec_metric_value(items[0].metric));
        assert(ss.drop_first() =~= spec_items_schema(
            prefixes,
            labels,
            items.drop_first(),
            true,
        ));
        assert(vs.drop_first() =~= spec_items_values(items.drop_first()));
        assert(spec_pair_om(ss[0], vs[0]) == spec_item_om(prefixes, labels, items[0]));
        assert(spec_pairs_om(ss, vs) =~= spec_items_om(prefixes, labels, items));
    }
}

/// Rendering a sequence of groups from their schema descriptors and value
/// snapshots gives exactly the live rendering of those groups.
pub proof fn lemma_groups_roundtrip(
    prefix: Option<Seq<char>>,
    labels: Seq<(Seq<char>, Seq<char>)>,
    gs: Seq<MetricsGroupV>,
)
    ensures
        spec_pairs_om(spec_groups_schema(prefix, labels, gs, true), spec_groups_values(gs))
            == spec_groups_om(prefix, labels, gs),
    decreases gs.len(),
{
    if gs.len() > 0 {
        let s1 = spec_group_schema(prefix, labels, gs[0], true);
        let v1 = spec_items_values(gs[0].items);
        let s2 = spec_groups_schema(prefix, labels, gs.drop_first(), true);
        let v2 = spec_groups_values(gs.drop_first());
        assert(s1.len() == v1.len());
        lemma_pairs_om_concat(s1, v1, s2, v2);
        lemma_items_roundtrip(spec_group_prefixes(prefix, gs[0]), labels, gs[0].items);
        lemma_groups_roundtrip(prefix, labels, gs.drop_first());
    }
}

/// Rendering a registry from its exported schema and values gives exactly the
/// live rendering of the registry.
pub proof fn lemma_registry_roundtrip(r: RegistryV)
    ensures
        spec_pairs_om(spec_registry_schema(r, true), spec_registry_values(r))
            == crate::registry::spec_registry_om(r),
    decreases r, 1int,
{
    let s1 = spec_groups_schema(r.prefix, r.labels, r.groups, true);
    let v1 = spec_groups_values(r.groups);
    let s2 = crate::registry::spec_subs_schema(r.subs, true);
    let v2 = crate::registry::spec_subs_values(r.subs);
    lemma_groups_schema_values_len(r.prefix, r.labels, r.groups, true);
    lemma_pairs_om_concat(s1, v1, s2, v2);
    lemma_groups_roundtrip(r.prefix, r.labels, r.groups);
    lemma_subs_roundtrip(r.subs);
}

/// Rendering a sub-registry list from its exported schema and values gives
/// exactly its live rendering.
pub proof fn lemma_subs_roundtrip(subs: Seq<RegistryV>)
    ensures
        spec_pairs_om(
            crate::registry::spec_subs_schema(subs, true),
            crate::registry::spec_subs_values(subs),
        ) == crate::registry::spec_subs_om(subs),
    decreases subs, 0int,
{
    if subs.len() > 0 {
        let s1 = spec_registry_schema(subs[0], true);
        let v1 = spec_registry_values(subs[0]);
        let s2 = crate::registry::spec_subs_schema(subs.drop_first(), true);
        let v2 = crate::registry::spec_subs_values(subs.drop_first());
        lemma_registry_schema_values_len(subs[0], true);
        lemma_pairs_om_concat(s1, v1, s2, v2);
        lemma_registry_roundtrip(subs[0]);
        lemma_subs_roundtrip(subs.drop_first());
    }
}

/// A registry without any registered group renders to nothing (before the
/// `# EOF` line) and exports no values.
pub proof fn lemma_empty_registry(r: RegistryV)
    requires
        crate::registry::spec_group_count(r) == 0,
    ensures
        crate::registry::spec_registry_om(r) == Seq::<char>::empty(),
        spec_registry_values(r) == Seq::<MetricValueV>::empty(),
    decreases r, 1int,
{
    crate::registry::lemma_subs_count_nonneg(r.subs);
    assert(r.groups.len() == 0);
    assert(spec_groups_om(r.prefix, r.labels, r.groups) == Seq::<char>::empty());
    assert(spec_groups_values(r.groups) == Seq::<MetricValueV>::empty());
    lemma_empty_subs(r.subs);
    assert(crate::registry::spec_registry_om(r) =~= Seq::<char>::empty());
    assert(spec_registry_values(r) =~= Seq::<MetricValueV>::empty());
}

/// Sub-registries without any registered group render to nothing and export
/// no values.
pub proof fn lemma_empty_subs(subs: Seq<RegistryV>)
    requires
        crate::registry::spec_subs_count(subs) == 0,
    ensures
        crate::registry::spec_subs_om(subs) == Seq::<char>::empty(),
        crate::registry::spec_subs_values(subs) == Seq::<MetricValueV>::empty(),
    decreases subs, 0int,
{
    if subs.len() > 0 {
        crate::registry::lemma_group_count_nonneg(subs[0]);
        crate::registry::lemma_subs_count_nonneg(subs.drop_first());
        lemma_empty_registry(subs[0]);
        lemma_empty_subs(subs.drop_first());
        assert(crate::registry::spec_subs_om(subs) =~= Seq::<char>::empty());
        assert(crate::registry::spec_subs_values(subs) =~= Seq::<MetricValueV>::empty());
    }
}

/// Round trip: rendering the update a fresh encoder exports from a registry
/// produces exactly the text the live registry renders, byte for byte, for
/// any registry state (histograms included).
pub proof fn lemma_snapshot_roundtrip(r: RegistryV)
    ensures
        ({
            let u = spec_export(0, true, r);
            spec_render_snapshot(u.schema, u.values) == crate::registry::spec_registry_om(r)
                + "# EOF\n"@
        }),
{
    let u = spec_export(0, true, r);
    crate::registry::lemma_group_count_nonneg(r);
    if crate::registry::spec_schema_version(r) == 0 {
        assert(crate::registry::spec_group_count(r) == 0);
        lemma_empty_registry(r);
        assert(spec_render_snapshot(u.schema, u.values) =~= crate::registry::spec_registry_om(r)
            + "# EOF\n"@);
    } else {
        lemma_registry_roundtrip(r);
    }
}

/// Schema re-send minimality: any export leaves the encoder's last version at
/// the registry's version, so a second export with no intervening
/// registration carries no schema.
pub proof fn lemma_schema_resend_minimal(last: u64, with_help: bool, r: RegistryV)
    ensures
        ({
            let version_after_first = crate::registry::spec_schema_version(r);
            let second = spec_export(version_after_first, with_help, r);
            &&& second.schema is None
            &&& second.values == spec_export(last, with_help, r).values
        }),
{
}

/// The rendered output of a registry always ends with the `# EOF` line.
pub proof fn lemma_registry_output_ends_with_eof(r: RegistryV)
    ensures
        ({
            let t = crate::registry::spec_registry_om(r) + "# EOF\n"@;
            &&& t.len() >= 6
            &&& t.subrange(t.len() - 6, t.len() as int) == "# EOF\n"@
        }),
{
    reveal_strlit("# EOF\n");
    let t = crate::registry::spec_registry_om(r) + "# EOF\n"@;
    assert(t.subrange(t.len() - 6, t.len() as int) =~= "# EOF\n"@);
}

/// The rendered output of a transported snapshot always ends with the `# EOF`
/// line.
pub proof fn lemma_snapshot_output_ends_with_eof(
    schema: Option<Seq<ItemSchemaV>>,
    values: Seq<MetricValueV>,
)
    ensures
        ({
            let t = spec_render_snapshot(schema, values);
            &&& t.len() >= 6
            &&& t.subrange(t.len() - 6, t.len() as int) == "# EOF\n"@
        }),
{
    reveal_strlit("# EOF\n");
    let t = spec_render_snapshot(schema, values);
    assert(t.subrange(t.len() - 6, t.len() as int) =~= "# EOF\n"@);
}

} // verus!

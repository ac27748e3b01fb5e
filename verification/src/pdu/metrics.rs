//! Prometheus text exposition of the status fields of a unit.
use vstd::prelude::*;
use crate::sort::{Keyed, sort_by_key, sort_by_keys};
use crate::text::{views, join, join_strings, decimal, decimal_string, str_lt};
use super::{RAW_DATA_LENGTH, METRIC_STEP, TEMP_INDEX_OFFSET, ADDRESS_COUNT, SENSOR_CHANNELS};

verus! {

/// The numbers of a status answer, already written as exposition values.
///
/// Turning the text of a field into an exposition value goes through
/// floating point (see the application's `format_number`), and so does the
/// sum of the loads; both are done before the library is called.
pub struct FormattedValues {
    /// `fields[k]` is the exposition value of status field `k`.
    pub fields: Vec<String>,
    /// Exposition value of the summed power of all addresses.
    pub total_load: String,
    /// Exposition value of the summed current of all addresses.
    pub total_load_current: String,
}

/// What a gauge holds, as text.
pub struct GaugeView {
    pub name: Seq<char>,
    pub help: Seq<char>,
    pub labels: Seq<Seq<char>>,
    pub samples: Seq<Seq<char>>,
}

/// A gauge family: its name, its help block, its label names and the
/// sample lines recorded so far.
pub struct GaugeVec {
    pub name: String,
    pub help: String,
    pub labels: Vec<String>,
    pub samples: Vec<String>,
}

impl View for GaugeVec {
    type V = GaugeView;

    open spec fn view(&self) -> GaugeView {
        GaugeView {
            name: self.name@,
            help: self.help@,
            labels: views(self.labels@),
            samples: views(self.samples@),
        }
    }
}

impl Keyed for GaugeVec {
    open spec fn key_of(v: GaugeView) -> Seq<char> {
        v.name
    }

    fn key_lt(&self, other: &Self) -> (r: bool) {
        str_lt(self.name.as_str(), other.name.as_str())
    }
}

/// The `# HELP` and `# TYPE` lines of a gauge.
pub open spec fn help_block(name: Seq<char>, help: Seq<char>) -> Seq<char> {
    "# HELP "@ + name + " "@ + help + "\n# TYPE "@ + name + " gauge\n"@
}

/// One `key="value"` label.
pub open spec fn label_pair(key: Seq<char>, value: Seq<char>) -> Seq<char> {
    key + "=\""@ + value + "\""@
}

/// The labels of a sample: names and values paired up to the shorter of
/// the two lists, joined with commas.
pub open spec fn label_text(keys: Seq<Seq<char>>, values: Seq<Seq<char>>) -> Seq<char> {
    let n = if keys.len() <= values.len() {
        keys.len()
    } else {
        values.len()
    };
    join(Seq::new(n, |i: int| label_pair(keys[i], values[i])), ","@)
}

/// One sample line: the name, the labels in braces unless there are none,
/// a space and the value.
pub open spec fn sample_line(name: Seq<char>, labels: Seq<char>, value: Seq<char>) -> Seq<char> {
    if labels.len() == 0 {
        name + " "@ + value
    } else {
        name + "{"@ + labels + "} "@ + value
    }
}

/// A gauge rendered: its help block, then its sample lines in sorted order,
/// one per line.
pub open spec fn rendered(g: GaugeView) -> Seq<char> {
    g.help + join(sort_by_key::<String>(g.samples), "\n"@)
}

/// The rendered gauges of `gs` that hold at least one sample, in order.
pub open spec fn shown_blocks(gs: Seq<GaugeView>) -> Seq<Seq<char>>
    decreases gs.len(),
{
    if gs.len() == 0 {
        seq![]
    } else {
        let prev = shown_blocks(gs.drop_last());
        if gs.last().samples.len() > 0 {
            prev.push(rendered(gs.last()))
        } else {
            prev
        }
    }
}

/// The exposition text of a set of gauges: sorted by name, the empty ones
/// left out, the others rendered and separated by a line break.
pub open spec fn exported(gs: Seq<GaugeView>) -> Seq<char> {
    join(shown_blocks(sort_by_key::<GaugeVec>(gs)), "\n"@)
}

/// A sample that is ready to be recorded into its gauge.
pub struct GaugeSample {
    pub name: String,
    pub labels: String,
}

impl GaugeVec {
    /// A gauge with no samples yet.
    pub fn new(name: &str, help: &str, labels: Vec<String>) -> (g: GaugeVec)
        ensures
            g@ == (GaugeView {
                name: name@,
                help: help_block(name@, help@),
                labels: views(labels@),
                samples: seq![],
            }),
    {
        let mut h = String::from_str("# HELP ");
        h.append(name);
        h.append(" ");
        h.append(help);
        h.append("\n# TYPE ");
        h.append(name);
        h.append(" gauge\n");
        let samples: Vec<String> = Vec::new();
        assert(views(samples@) =~= Seq::<Seq<char>>::empty());
        GaugeVec { name: String::from_str(name), help: h, labels, samples }
    }

    /// The sample of this gauge with the given label values.
    pub fn with_label_values(&self, values: &Vec<String>) -> (s: GaugeSample)
        ensures
            s.name@ == self@.name,
            s.labels@ == label_text(self@.labels, views(values@)),
    {
        let n = if self.labels.len() <= values.len() {
            self.labels.len()
        } else {
            values.len()
        };
        let ghost keys = self@.labels;
        let ghost vals = views(values@);
        let mut pairs: Vec<String> = Vec::new();
        let mut k: usize = 0;
        while k < n
            invariant
                k <= n,
                n <= self.labels@.len(),
                n <= values@.len(),
                keys == views(self.labels@),
                vals == views(values@),
                views(pairs@) == Seq::new(k as nat, |i: int| label_pair(keys[i], vals[i])),
            decreases n - k,
        {
            let mut pair = self.labels[k].clone();
            pair.append("=\"");
            pair.append(values[k].as_str());
            pair.append("\"");
            assert(keys[k as int] == self.labels@[k as int]@);
            assert(vals[k as int] == values@[k as int]@);
            let ghost before = pairs@;
            pairs.push(pair);
            assert(views(pairs@) =~= views(before).push(pair@));
            k = k + 1;
            assert(views(pairs@) =~= Seq::new(k as nat, |i: int| label_pair(keys[i], vals[i])));
        }
        let labels = join_strings(&pairs, ",");
        GaugeSample { name: self.name.clone(), labels }
    }

    /// The help block and the sorted sample lines; the samples stay sorted.
    pub fn render(&mut self) -> (out: String)
        ensures
            out@ == rendered(old(self)@),
            final(self)@ == (GaugeView { samples: sort_by_key::<String>(old(self)@.samples), ..old(self)@ }),
    {
        let mut taken: Vec<String> = Vec::new();
        std::mem::swap(&mut taken, &mut self.samples);
        self.samples = sort_by_keys(taken);
        let body = join_strings(&self.samples, "\n");
        let mut out = self.help.clone();
        out.append(body.as_str());
        out
    }
}

impl GaugeSample {
    /// Records this sample, with the given exposition value, into `gauge`.
    pub fn set(&self, gauge: &mut GaugeVec, value: &str)
        ensures
            final(gauge)@ == (GaugeView {
                samples: old(gauge)@.samples.push(sample_line(self.name@, self.labels@, value@)),
                ..old(gauge)@
            }),
    {
        let mut line = self.name.clone();
        if self.labels.as_str().is_empty() {
            line.append(" ");
        } else {
            line.append("{");
            line.append(self.labels.as_str());
            line.append("} ");
        }
        line.append(value);
        let ghost before = gauge.samples@;
        gauge.samples.push(line);
        assert(views(gauge.samples@) =~= views(before).push(line@));
    }
}


/// A gauge with the given name, help text, label names and samples.
pub open spec fn gauge_with(
    name: Seq<char>,
    help: Seq<char>,
    labels: Seq<Seq<char>>,
    samples: Seq<Seq<char>>,
) -> GaugeView {
    GaugeView { name, help: help_block(name, help), labels, samples }
}

/// Label names of the per-address gauges.
pub open spec fn address_keys() -> Seq<Seq<char>> {
    seq!["address"@]
}

/// Label names of the sensor gauges.
pub open spec fn sensor_keys() -> Seq<Seq<char>> {
    seq!["address"@, "channel"@]
}

/// Label names of the sensor presence gauge.
pub open spec fn type_keys() -> Seq<Seq<char>> {
    seq!["type"@]
}

/// Index of the first field of address number `a + 1`.
pub open spec fn address_base(a: int) -> int {
    a * METRIC_STEP
}

/// Index of the name field of sensor channel `j + 1` of address `a + 1`.
pub open spec fn sensor_index(a: int, j: int) -> int {
    address_base(a) + TEMP_INDEX_OFFSET + 3 * j
}

/// The samples of a per-address gauge for the first `n` addresses: the
/// value of field `offset` of each address, labelled with its number.
pub open spec fn address_samples(
    name: Seq<char>,
    fields: Seq<Seq<char>>,
    offset: int,
    n: nat,
) -> Seq<Seq<char>> {
    Seq::new(
        n,
        |a: int|
            sample_line(
                name,
                label_text(address_keys(), seq![decimal((a + 1) as nat)]),
                fields[address_base(a) + offset],
            ),
    )
}

/// The samples of a sensor gauge for the first `j` channels of address
/// `a + 1`: one for each channel whose name field is not empty, with the
/// value at `offset` after that name field.
pub open spec fn channel_samples(
    name: Seq<char>,
    data: Seq<Seq<char>>,
    fields: Seq<Seq<char>>,
    offset: int,
    a: int,
    j: nat,
) -> Seq<Seq<char>>
    decreases j,
{
    if j == 0 {
        seq![]
    } else {
        let prev = channel_samples(name, data, fields, offset, a, (j - 1) as nat);
        let k = sensor_index(a, j - 1);
        if data[k].len() > 0 {
            prev.push(
                sample_line(
                    name,
                    label_text(sensor_keys(), seq![decimal((a + 1) as nat), decimal(j)]),
                    fields[k + offset],
                ),
            )
        } else {
            prev
        }
    }
}

/// The samples of a sensor gauge for the first `n` addresses, address by
/// address.
pub open spec fn sensor_samples(
    name: Seq<char>,
    data: Seq<Seq<char>>,
    fields: Seq<Seq<char>>,
    offset: int,
    n: nat,
) -> Seq<Seq<char>>
    decreases n,
{
    if n == 0 {
        seq![]
    } else {
        sensor_samples(name, data, fields, offset, (n - 1) as nat) + channel_samples(
            name,
            data,
            fields,
            offset,
            n - 1,
            SENSOR_CHANNELS as nat,
        )
    }
}

/// `"1"` when a sensor gauge holds samples, `"0"` otherwise.
///
/// These are the exposition values of `1` and `0`: an integral value is
/// written as its integer.
pub open spec fn presence(samples: Seq<Seq<char>>) -> Seq<char> {
    if samples.len() > 0 {
        "1"@
    } else {
        "0"@
    }
}

/// Address `a + 1` has a channel among its first `j` whose name field is
/// not empty.
pub open spec fn has_named_channel(data: Seq<Seq<char>>, a: int, j: int) -> bool {
    exists|k: int| 0 <= k < j && (#[trigger] data[sensor_index(a, k)]).len() > 0
}

/// One of the first `n` addresses has a sensor channel whose name field is
/// not empty.
pub open spec fn has_named_sensor(data: Seq<Seq<char>>, n: int) -> bool {
    exists|a: int| 0 <= a < n && #[trigger] has_named_channel(data, a, SENSOR_CHANNELS as int)
}

proof fn lemma_channel_samples_present(
    name: Seq<char>,
    data: Seq<Seq<char>>,
    fields: Seq<Seq<char>>,
    offset: int,
    a: int,
    j: nat,
)
    ensures
        channel_samples(name, data, fields, offset, a, j).len() > 0 <==> has_named_channel(data, a, j as int),
    decreases j,
{
    if j > 0 {
        lemma_channel_samples_present(name, data, fields, offset, a, (j - 1) as nat);
        if has_named_channel(data, a, j as int) && !has_named_channel(data, a, j - 1) {
            let k = choose|k: int| 0 <= k < j && (#[trigger] data[sensor_index(a, k)]).len() > 0;
            assert(k == j - 1);
        }
        if data[sensor_index(a, j - 1)].len() > 0 {
            assert(has_named_channel(data, a, j as int));
        }
        if has_named_channel(data, a, j - 1) {
            let k = choose|k: int| 0 <= k < j - 1 && (#[trigger] data[sensor_index(a, k)]).len() > 0;
            assert(has_named_channel(data, a, j as int));
        }
    }
}

/// A sensor gauge holds samples exactly when some sensor channel of some
/// address has a name.
pub proof fn lemma_sensor_samples_present(
    name: Seq<char>,
    data: Seq<Seq<char>>,
    fields: Seq<Seq<char>>,
    offset: int,
    n: nat,
)
    ensures
        sensor_samples(name, data, fields, offset, n).len() > 0 <==> has_named_sensor(data, n as int),
    decreases n,
{
    if n > 0 {
        lemma_sensor_samples_present(name, data, fields, offset, (n - 1) as nat);
        lemma_channel_samples_present(name, data, fields, offset, n - 1, SENSOR_CHANNELS as nat);
        if has_named_sensor(data, n as int) && !has_named_sensor(data, n - 1) {
            let a = choose|a: int| 0 <= a < n && #[trigger] has_named_channel(data, a, SENSOR_CHANNELS as int);
            assert(a == n - 1);
        }
        if has_named_channel(data, n - 1, SENSOR_CHANNELS as int) {
            assert(has_named_sensor(data, n as int));
        }
        if has_named_sensor(data, n - 1) {
            let a = choose|a: int| 0 <= a < n - 1 && #[trigger] has_named_channel(data, a, SENSOR_CHANNELS as int);
            assert(has_named_sensor(data, n as int));
        }
    }
}

/// The presence values of the exposition: `1` for temperature and for
/// humidity exactly when some sensor channel of some address has a name.
pub proof fn lemma_presence(data: Seq<Seq<char>>, fields: Seq<Seq<char>>)
    ensures
        presence(temperature_samples(data, fields)) == (if has_named_sensor(data, ADDRESS_COUNT as int) {
            "1"@
        } else {
            "0"@
        }),
        presence(humidity_samples(data, fields)) == presence(temperature_samples(data, fields)),
{
    lemma_sensor_samples_present("temperature"@, data, fields, 1, ADDRESS_COUNT as nat);
    lemma_sensor_samples_present("humidity"@, data, fields, 2, ADDRESS_COUNT as nat);
}

proof fn lemma_address_gauge(name: Seq<char>, fields: Seq<Seq<char>>, offset: int)
    ensures
        address_samples(name, fields, offset, ADDRESS_COUNT as nat).len() == ADDRESS_COUNT,
        forall|a: int|
            0 <= a < ADDRESS_COUNT ==> #[trigger] address_samples(name, fields, offset, ADDRESS_COUNT as nat)[a]
                == name + "{address=\""@ + decimal((a + 1) as nat) + "\"} "@ + fields[a * METRIC_STEP + offset],
{
    reveal_strlit("address");
    reveal_strlit("=\"");
    reveal_strlit("\"");
    reveal_strlit("{");
    reveal_strlit("} ");
    reveal_strlit("{address=\"");
    reveal_strlit("\"} ");
    assert forall|a: int| 0 <= a < ADDRESS_COUNT implies #[trigger] address_samples(
        name,
        fields,
        offset,
        ADDRESS_COUNT as nat,
    )[a] == name + "{address=\""@ + decimal((a + 1) as nat) + "\"} "@ + fields[a * METRIC_STEP + offset] by {
        let d = decimal((a + 1) as nat);
        let pairs = Seq::new(1, |i: int| label_pair(address_keys()[i], seq![d][i]));
        assert(pairs.len() == 1);
        assert(join(pairs, ","@) == pairs[0]);
        let labels = label_text(address_keys(), seq![d]);
        assert(labels == "address"@ + "=\""@ + d + "\""@);
        assert(labels.len() > 0);
        assert(name + "{"@ + labels + "} "@ + fields[a * METRIC_STEP + offset] =~= name + "{address=\""@ + d
            + "\"} "@ + fields[a * METRIC_STEP + offset]);
    }
}

/// Each per-address gauge of a status answer holds one sample for every
/// address, whatever its value: the line for address `a + 1` is the gauge's
/// name, the label `address="a + 1"` and the exposition value of the
/// address's field for that gauge (current at offset 10, voltage 11, power
/// 12, power factor 13, energy 14).
pub proof fn lemma_one_sample_per_address(
    data: Seq<Seq<char>>,
    fields: Seq<Seq<char>>,
    total_load: Seq<char>,
    total_load_current: Seq<char>,
)
    ensures
        forall|g: int|
            0 <= g < 5 ==> {
                let gauge = #[trigger] metrics_gauges(data, fields, total_load, total_load_current)[g];
                &&& gauge.samples.len() == ADDRESS_COUNT
                &&& forall|a: int|
                    0 <= a < ADDRESS_COUNT ==> #[trigger] gauge.samples[a] == gauge.name + "{address=\""@
                        + decimal((a + 1) as nat) + "\"} "@ + fields[a * METRIC_STEP + 10 + g]
            },
        metrics_gauges(data, fields, total_load, total_load_current)[0].name == "current"@,
        metrics_gauges(data, fields, total_load, total_load_current)[1].name == "voltage"@,
        metrics_gauges(data, fields, total_load, total_load_current)[2].name == "power"@,
        metrics_gauges(data, fields, total_load, total_load_current)[3].name == "power_factor"@,
        metrics_gauges(data, fields, total_load, total_load_current)[4].name == "energy"@,
{
    lemma_address_gauge("current"@, fields, 10);
    lemma_address_gauge("voltage"@, fields, 11);
    lemma_address_gauge("power"@, fields, 12);
    lemma_address_gauge("power_factor"@, fields, 13);
    lemma_address_gauge("energy"@, fields, 14);
}

/// Two field lists agree on the fields that describe readings: those at
/// offset ten and beyond in each address block, up to the end of the status
/// answer.
pub open spec fn agree_on_readings(a: Seq<Seq<char>>, b: Seq<Seq<char>>) -> bool {
    forall|k: int| 0 <= k < RAW_DATA_LENGTH && k % (METRIC_STEP as int) >= 10 ==> #[trigger] a[k] == b[k]
}

proof fn lemma_block_offset(a: int, off: int)
    requires
        0 <= a < ADDRESS_COUNT,
        0 <= off < METRIC_STEP,
    ensures
        (address_base(a) + off) % (METRIC_STEP as int) == off,
        0 <= address_base(a) + off < RAW_DATA_LENGTH,
{
    assert((a * 63 + off) % 63 == off) by (nonlinear_arith)
        requires
            0 <= a,
            0 <= off < 63,
    ;
    assert(a * 63 + off < 2016) by (nonlinear_arith)
        requires
            0 <= a < 32,
            0 <= off < 63,
    ;
}

proof fn lemma_channel_samples_agree(
    name: Seq<char>,
    d1: Seq<Seq<char>>,
    f1: Seq<Seq<char>>,
    d2: Seq<Seq<char>>,
    f2: Seq<Seq<char>>,
    offset: int,
    a: int,
    j: nat,
)
    requires
        agree_on_readings(d1, d2),
        agree_on_readings(f1, f2),
        1 <= offset <= 2,
        0 <= a < ADDRESS_COUNT,
        j <= SENSOR_CHANNELS,
    ensures
        channel_samples(name, d1, f1, offset, a, j) == channel_samples(name, d2, f2, offset, a, j),
    decreases j,
{
    if j > 0 {
        lemma_channel_samples_agree(name, d1, f1, d2, f2, offset, a, (j - 1) as nat);
        let k = sensor_index(a, j - 1);
        lemma_block_offset(a, TEMP_INDEX_OFFSET + 3 * (j - 1));
        lemma_block_offset(a, TEMP_INDEX_OFFSET + 3 * (j - 1) + offset);
        assert(d1[k] == d2[k]);
        assert(f1[k + offset] == f2[k + offset]);
    }
}

proof fn lemma_sensor_samples_agree(
    name: Seq<char>,
    d1: Seq<Seq<char>>,
    f1: Seq<Seq<char>>,
    d2: Seq<Seq<char>>,
    f2: Seq<Seq<char>>,
    offset: int,
    n: nat,
)
    requires
        agree_on_readings(d1, d2),
        agree_on_readings(f1, f2),
        1 <= offset <= 2,
        n <= ADDRESS_COUNT,
    ensures
        sensor_samples(name, d1, f1, offset, n) == sensor_samples(name, d2, f2, offset, n),
    decreases n,
{
    if n > 0 {
        lemma_sensor_samples_agree(name, d1, f1, d2, f2, offset, (n - 1) as nat);
        lemma_channel_samples_agree(name, d1, f1, d2, f2, offset, n - 1, SENSOR_CHANNELS as nat);
    }
}

proof fn lemma_address_samples_agree(name: Seq<char>, f1: Seq<Seq<char>>, f2: Seq<Seq<char>>, offset: int)
    requires
        agree_on_readings(f1, f2),
        10 <= offset < METRIC_STEP,
    ensures
        address_samples(name, f1, offset, ADDRESS_COUNT as nat) == address_samples(
            name,
            f2,
            offset,
            ADDRESS_COUNT as nat,
        ),
{
    assert forall|a: int| 0 <= a < ADDRESS_COUNT implies #[trigger] f1[address_base(a) + offset] == f2[address_base(a) + offset] by {
        lemma_block_offset(a, offset);
    }
    assert(address_samples(name, f1, offset, ADDRESS_COUNT as nat) =~= address_samples(
        name,
        f2,
        offset,
        ADDRESS_COUNT as nat,
    ));
}

/// The exposition text depends only on the reading fields of a status
/// answer (offset ten and beyond in each address block, within the answer)
/// and on their values: names, the fields before offset ten and anything
/// past the end of the answer play no part.
pub proof fn lemma_text_depends_on_readings(
    d1: Seq<Seq<char>>,
    f1: Seq<Seq<char>>,
    d2: Seq<Seq<char>>,
    f2: Seq<Seq<char>>,
    total_load: Seq<char>,
    total_load_current: Seq<char>,
)
    requires
        agree_on_readings(d1, d2),
        agree_on_readings(f1, f2),
    ensures
        metrics_text(d1, f1, total_load, total_load_current) == metrics_text(
            d2,
            f2,
            total_load,
            total_load_current,
        ),
{
    lemma_address_samples_agree("current"@, f1, f2, 10);
    lemma_address_samples_agree("voltage"@, f1, f2, 11);
    lemma_address_samples_agree("power"@, f1, f2, 12);
    lemma_address_samples_agree("power_factor"@, f1, f2, 13);
    lemma_address_samples_agree("energy"@, f1, f2, 14);
    lemma_sensor_samples_agree("temperature"@, d1, f1, d2, f2, 1, ADDRESS_COUNT as nat);
    lemma_sensor_samples_agree("humidity"@, d1, f1, d2, f2, 2, ADDRESS_COUNT as nat);
    assert(metrics_gauges(d1, f1, total_load, total_load_current) =~= metrics_gauges(
        d2,
        f2,
        total_load,
        total_load_current,
    ));
}

/// The temperature samples of a status answer.
pub open spec fn temperature_samples(data: Seq<Seq<char>>, fields: Seq<Seq<char>>) -> Seq<Seq<char>> {
    sensor_samples("temperature"@, data, fields, 1, ADDRESS_COUNT as nat)
}

/// The humidity samples of a status answer.
pub open spec fn humidity_samples(data: Seq<Seq<char>>, fields: Seq<Seq<char>>) -> Seq<Seq<char>> {
    sensor_samples("humidity"@, data, fields, 2, ADDRESS_COUNT as nat)
}

/// The gauges of a status answer, in the order they are declared.
pub open spec fn metrics_gauges(
    data: Seq<Seq<char>>,
    fields: Seq<Seq<char>>,
    total_load: Seq<char>,
    total_load_current: Seq<char>,
) -> Seq<GaugeView> {
    let n = ADDRESS_COUNT as nat;
    let temp = temperature_samples(data, fields);
    let hum = humidity_samples(data, fields);
    seq![
        gauge_with("current"@, "Current in ampere"@, address_keys(), address_samples("current"@, fields, 10, n)),
        gauge_with("voltage"@, "Voltage in volt"@, address_keys(), address_samples("voltage"@, fields, 11, n)),
        gauge_with("power"@, "Power in watt"@, address_keys(), address_samples("power"@, fields, 12, n)),
        gauge_with(
            "power_factor"@,
            "Power factor in ratio (0.0 - 1.0)"@,
            address_keys(),
            address_samples("power_factor"@, fields, 13, n),
        ),
        gauge_with("energy"@, "Energy in kWh"@, address_keys(), address_samples("energy"@, fields, 14, n)),
        gauge_with("temperature"@, "Temperature in celsius"@, sensor_keys(), temp),
        gauge_with("humidity"@, "Humidity in percent"@, sensor_keys(), hum),
        gauge_with(
            "sensor_exists"@,
            "Sensor exists (bool)"@,
            type_keys(),
            seq![
                sample_line("sensor_exists"@, label_text(type_keys(), seq!["temperature"@]), presence(temp)),
                sample_line("sensor_exists"@, label_text(type_keys(), seq!["humidity"@]), presence(hum)),
            ],
        ),
        gauge_with(
            "total_load"@,
            "Total load in watt(W)"@,
            seq![],
            seq![sample_line("total_load"@, label_text(seq![], seq![]), total_load)],
        ),
        gauge_with(
            "total_load_current"@,
            "Total load current in ampere(A)"@,
            seq![],
            seq![sample_line("total_load_current"@, label_text(seq![], seq![]), total_load_current)],
        ),
    ]
}

/// The exposition text of a status answer.
pub open spec fn metrics_text(
    data: Seq<Seq<char>>,
    fields: Seq<Seq<char>>,
    total_load: Seq<char>,
    total_load_current: Seq<char>,
) -> Seq<char> {
    exported(metrics_gauges(data, fields, total_load, total_load_current))
}

/// The gauges that a status answer is exposed with.
pub struct PduMetrics {
    pub current: GaugeVec,
    pub voltage: GaugeVec,
    pub power: GaugeVec,
    pub power_factor: GaugeVec,
    pub energy: GaugeVec,
    pub temperature: GaugeVec,
    pub humidity: GaugeVec,
    pub sensor_exists: GaugeVec,
    pub total_load: GaugeVec,
    pub total_load_current: GaugeVec,
}

impl View for PduMetrics {
    type V = Seq<GaugeView>;

    open spec fn view(&self) -> Seq<GaugeView> {
        seq![
            self.current@,
            self.voltage@,
            self.power@,
            self.power_factor@,
            self.energy@,
            self.temperature@,
            self.humidity@,
            self.sensor_exists@,
            self.total_load@,
            self.total_load_current@,
        ]
    }
}

impl PduMetrics {
    /// The exposition text of all gauges: sorted by name, the empty ones
    /// left out, separated by a line break.
    pub fn export_metrics(self) -> (text: String)
        ensures
            text@ == exported(self@),
    {
        let ghost all = self@;
        let mut gauges: Vec<GaugeVec> = Vec::new();
        gauges.push(self.current);
        gauges.push(self.voltage);
        gauges.push(self.power);
        gauges.push(self.power_factor);
        gauges.push(self.energy);
        gauges.push(self.temperature);
        gauges.push(self.humidity);
        gauges.push(self.sensor_exists);
        gauges.push(self.total_load);
        gauges.push(self.total_load_current);
        assert(views(gauges@) =~= all);
        let mut rest = sort_by_keys(gauges);
        let ghost sorted = views(rest@);
        let n = rest.len();
        let mut blocks: Vec<String> = Vec::new();
        let mut k: usize = 0;
        assert(sorted.skip(0) =~= sorted);
        assert(views(blocks@) =~= shown_blocks(sorted.take(0)));
        while rest.len() > 0
            invariant
                k + rest@.len() == n,
                n == sorted.len(),
                views(rest@) == sorted.skip(k as int),
                views(blocks@) == shown_blocks(sorted.take(k as int)),
            decreases rest@.len(),
        {
            let ghost before = rest@;
            let mut g = rest.remove(0);
            assert(views(before)[0] == before[0]@);
            assert(g@ == sorted[k as int]);
            assert forall|i: int| 0 <= i < rest@.len() implies #[trigger] views(rest@)[i] == sorted[k + 1 + i] by {
                assert(rest@[i] == before[i + 1]);
                assert(views(before)[i + 1] == before[i + 1]@);
            }
            assert(sorted.take(k + 1).drop_last() =~= sorted.take(k as int));
            if g.samples.len() > 0 {
                let block = g.render();
                let ghost old_blocks = blocks@;
                blocks.push(block);
                assert(views(blocks@) =~= views(old_blocks).push(block@));
            }
            k = k + 1;
            assert(views(rest@) =~= sorted.skip(k as int));
        }
        assert(sorted.take(k as int) =~= sorted);
        join_strings(&blocks, "\n")
    }
}

fn string_list1(a: &str) -> (v: Vec<String>)
    ensures
        views(v@) == seq![a@],
{
    let mut v: Vec<String> = Vec::new();
    v.push(String::from_str(a));
    assert(views(v@) =~= seq![a@]);
    v
}

fn string_list2(a: &str, b: &str) -> (v: Vec<String>)
    ensures
        views(v@) == seq![a@, b@],
{
    let mut v: Vec<String> = Vec::new();
    v.push(String::from_str(a));
    v.push(String::from_str(b));
    assert(views(v@) =~= seq![a@, b@]);
    v
}

/// The gauges of a status answer, without samples.
pub fn build_metrics() -> (m: PduMetrics)
    ensures
        m.current@ == gauge_with("current"@, "Current in ampere"@, address_keys(), seq![]),
        m.voltage@ == gauge_with("voltage"@, "Voltage in volt"@, address_keys(), seq![]),
        m.power@ == gauge_with("power"@, "Power in watt"@, address_keys(), seq![]),
        m.power_factor@ == gauge_with("power_factor"@, "Power factor in ratio (0.0 - 1.0)"@, address_keys(), seq![]),
        m.energy@ == gauge_with("energy"@, "Energy in kWh"@, address_keys(), seq![]),
        m.temperature@ == gauge_with("temperature"@, "Temperature in celsius"@, sensor_keys(), seq![]),
        m.humidity@ == gauge_with("humidity"@, "Humidity in percent"@, sensor_keys(), seq![]),
        m.sensor_exists@ == gauge_with("sensor_exists"@, "Sensor exists (bool)"@, type_keys(), seq![]),
        m.total_load@ == gauge_with("total_load"@, "Total load in watt(W)"@, seq![], seq![]),
        m.total_load_current@ == gauge_with("total_load_current"@, "Total load current in ampere(A)"@, seq![], seq![]),
{
    let no_labels: Vec<String> = Vec::new();
    assert(views(no_labels@) =~= Seq::<Seq<char>>::empty());
    let no_labels2: Vec<String> = Vec::new();
    assert(views(no_labels2@) =~= Seq::<Seq<char>>::empty());
    PduMetrics {
        current: GaugeVec::new("current", "Current in ampere", string_list1("address")),
        voltage: GaugeVec::new("voltage", "Voltage in volt", string_list1("address")),
        power: GaugeVec::new("power", "Power in watt", string_list1("address")),
        power_factor: GaugeVec::new("power_factor", "Power factor in ratio (0.0 - 1.0)", string_list1("address")),
        energy: GaugeVec::new("energy", "Energy in kWh", string_list1("address")),
        temperature: GaugeVec::new("temperature", "Temperature in celsius", string_list2("address", "channel")),
        humidity: GaugeVec::new("humidity", "Humidity in percent", string_list2("address", "channel")),
        sensor_exists: GaugeVec::new("sensor_exists", "Sensor exists (bool)", string_list1("type")),
        total_load: GaugeVec::new("total_load", "Total load in watt(W)", no_labels),
        total_load_current: GaugeVec::new("total_load_current", "Total load current in ampere(A)", no_labels2),
    }
}


/// Records the sensor samples of address `a + 1` into the temperature and
/// humidity gauges.
fn record_sensors(
    temperature: &mut GaugeVec,
    humidity: &mut GaugeVec,
    data: &Vec<String>,
    fields: &Vec<String>,
    a: usize,
    address: &String,
)
    requires
        a < ADDRESS_COUNT,
        data@.len() >= RAW_DATA_LENGTH,
        fields@.len() == data@.len(),
        address@ == decimal((a + 1) as nat),
        old(temperature)@.labels == sensor_keys(),
        old(humidity)@.labels == sensor_keys(),
        old(temperature)@.name == "temperature"@,
        old(humidity)@.name == "humidity"@,
    ensures
        final(temperature)@ == (GaugeView {
            samples: old(temperature)@.samples + channel_samples(
                "temperature"@,
                views(data@),
                views(fields@),
                1,
                a as int,
                SENSOR_CHANNELS as nat,
            ),
            ..old(temperature)@
        }),
        final(humidity)@ == (GaugeView {
            samples: old(humidity)@.samples + channel_samples(
                "humidity"@,
                views(data@),
                views(fields@),
                2,
                a as int,
                SENSOR_CHANNELS as nat,
            ),
            ..old(humidity)@
        }),
{
    let ghost d = views(data@);
    let ghost f = views(fields@);
    let ghost t0 = temperature@;
    let ghost h0 = humidity@;
    let base = a * METRIC_STEP + TEMP_INDEX_OFFSET;
    let mut j: usize = 0;
    assert(t0.samples + channel_samples("temperature"@, d, f, 1, a as int, 0) =~= t0.samples);
    assert(h0.samples + channel_samples("humidity"@, d, f, 2, a as int, 0) =~= h0.samples);
    while j < SENSOR_CHANNELS
        invariant
            j <= SENSOR_CHANNELS,
            a < ADDRESS_COUNT,
            base == a * METRIC_STEP + TEMP_INDEX_OFFSET,
            data@.len() >= RAW_DATA_LENGTH,
            fields@.len() == data@.len(),
            d == views(data@),
            f == views(fields@),
            address@ == decimal((a + 1) as nat),
            temperature@ == (GaugeView {
                samples: t0.samples + channel_samples("temperature"@, d, f, 1, a as int, j as nat),
                ..t0
            }),
            humidity@ == (GaugeView {
                samples: h0.samples + channel_samples("humidity"@, d, f, 2, a as int, j as nat),
                ..h0
            }),
            t0.labels == sensor_keys(),
            h0.labels == sensor_keys(),
            t0.name == "temperature"@,
            h0.name == "humidity"@,
        decreases SENSOR_CHANNELS - j,
    {
        let index = base + j * 3;
        let channel = decimal_string(j + 1);
        assert(index == sensor_index(a as int, j as int));
        assert(d[index as int] == data@[index as int]@);
        if !data[index].as_str().is_empty() {
            let mut values: Vec<String> = Vec::new();
            values.push(address.clone());
            values.push(channel);
            assert(views(values@) =~= seq![decimal((a + 1) as nat), decimal((j + 1) as nat)]);
            assert(f[index + 1] == fields@[index + 1]@);
            assert(f[index + 2] == fields@[index + 2]@);
            let ts = temperature.with_label_values(&values);
            ts.set(temperature, fields[index + 1].as_str());
            let hs = humidity.with_label_values(&values);
            hs.set(humidity, fields[index + 2].as_str());
            assert(temperature@.samples =~= t0.samples + channel_samples("temperature"@, d, f, 1, a as int, (j + 1) as nat));
            assert(humidity@.samples =~= h0.samples + channel_samples("humidity"@, d, f, 2, a as int, (j + 1) as nat));
        } else {
            assert(channel_samples("temperature"@, d, f, 1, a as int, (j + 1) as nat)
                == channel_samples("temperature"@, d, f, 1, a as int, j as nat));
            assert(channel_samples("humidity"@, d, f, 2, a as int, (j + 1) as nat)
                == channel_samples("humidity"@, d, f, 2, a as int, j as nat));
        }
        j = j + 1;
    }
}

/// Records the value of field `offset` of address `a + 1` into `gauge`,
/// which holds the samples of the addresses before it.
fn record_address(gauge: &mut GaugeVec, values: &Vec<String>, fields: &Vec<String>, a: usize, offset: usize)
    requires
        a < ADDRESS_COUNT,
        offset < METRIC_STEP,
        fields@.len() >= RAW_DATA_LENGTH,
        views(values@) == seq![decimal((a + 1) as nat)],
        old(gauge)@.labels == address_keys(),
        old(gauge)@.samples == address_samples(old(gauge)@.name, views(fields@), offset as int, a as nat),
    ensures
        final(gauge)@ == (GaugeView {
            samples: address_samples(old(gauge)@.name, views(fields@), offset as int, (a + 1) as nat),
            ..old(gauge)@
        }),
{
    let ghost g0 = gauge@;
    let index = a * METRIC_STEP + offset;
    assert(views(fields@)[index as int] == fields@[index as int]@);
    let sample = gauge.with_label_values(values);
    sample.set(gauge, fields[index].as_str());
    assert(gauge@.samples =~= address_samples(g0.name, views(fields@), offset as int, (a + 1) as nat));
}

/// The Prometheus exposition text of a status answer of a unit.
///
/// `data` holds the fields of the answer; `values` holds their exposition
/// values and those of the summed loads.
pub fn process_metrics(data: &Vec<String>, values: &FormattedValues) -> (text: String)
    requires
        data@.len() >= RAW_DATA_LENGTH,
        values.fields@.len() == data@.len(),
    ensures
        text@ == metrics_text(
            views(data@),
            views(values.fields@),
            values.total_load@,
            values.total_load_current@,
        ),
{
    let ghost d = views(data@);
    let ghost f = views(values.fields@);
    let mut m = build_metrics();
    let mut a: usize = 0;
    assert(address_samples("current"@, f, 10, 0) =~= Seq::<Seq<char>>::empty());
    assert(address_samples("voltage"@, f, 11, 0) =~= Seq::<Seq<char>>::empty());
    assert(address_samples("power"@, f, 12, 0) =~= Seq::<Seq<char>>::empty());
    assert(address_samples("power_factor"@, f, 13, 0) =~= Seq::<Seq<char>>::empty());
    assert(address_samples("energy"@, f, 14, 0) =~= Seq::<Seq<char>>::empty());
    while a < ADDRESS_COUNT
        invariant
            a <= ADDRESS_COUNT,
            data@.len() >= RAW_DATA_LENGTH,
            values.fields@.len() == data@.len(),
            d == views(data@),
            f == views(values.fields@),
            m.current@ == gauge_with("current"@, "Current in ampere"@, address_keys(), address_samples("current"@, f, 10, a as nat)),
            m.voltage@ == gauge_with("voltage"@, "Voltage in volt"@, address_keys(), address_samples("voltage"@, f, 11, a as nat)),
            m.power@ == gauge_with("power"@, "Power in watt"@, address_keys(), address_samples("power"@, f, 12, a as nat)),
            m.power_factor@ == gauge_with(
                "power_factor"@,
                "Power factor in ratio (0.0 - 1.0)"@,
                address_keys(),
                address_samples("power_factor"@, f, 13, a as nat),
            ),
            m.energy@ == gauge_with("energy"@, "Energy in kWh"@, address_keys(), address_samples("energy"@, f, 14, a as nat)),
            m.temperature@ == gauge_with("temperature"@, "Temperature in celsius"@, sensor_keys(), sensor_samples("temperature"@, d, f, 1, a as nat)),
            m.humidity@ == gauge_with("humidity"@, "Humidity in percent"@, sensor_keys(), sensor_samples("humidity"@, d, f, 2, a as nat)),
            m.sensor_exists@ == gauge_with("sensor_exists"@, "Sensor exists (bool)"@, type_keys(), seq![]),
            m.total_load@ == gauge_with("total_load"@, "Total load in watt(W)"@, seq![], seq![]),
            m.total_load_current@ == gauge_with("total_load_current"@, "Total load current in ampere(A)"@, seq![], seq![]),
        decreases ADDRESS_COUNT - a,
    {
        let address = decimal_string(a + 1);
        let mut labels: Vec<String> = Vec::new();
        labels.push(address.clone());
        assert(views(labels@) =~= seq![decimal((a + 1) as nat)]);
        record_address(&mut m.current, &labels, &values.fields, a, 10);
        record_address(&mut m.voltage, &labels, &values.fields, a, 11);
        record_address(&mut m.power, &labels, &values.fields, a, 12);
        record_address(&mut m.power_factor, &labels, &values.fields, a, 13);
        record_address(&mut m.energy, &labels, &values.fields, a, 14);
        record_sensors(&mut m.temperature, &mut m.humidity, data, &values.fields, a, &address);
        a = a + 1;
    }
    let has_temperature = if m.temperature.samples.len() > 0 { String::from_str("1") } else { String::from_str("0") };
    let has_humidity = if m.humidity.samples.len() > 0 { String::from_str("1") } else { String::from_str("0") };
    let no_values: Vec<String> = Vec::new();
    assert(views(no_values@) =~= Seq::<Seq<char>>::empty());
    let s = m.total_load.with_label_values(&no_values);
    s.set(&mut m.total_load, values.total_load.as_str());
    let s = m.total_load_current.with_label_values(&no_values);
    s.set(&mut m.total_load_current, values.total_load_current.as_str());
    let s = m.sensor_exists.with_label_values(&string_list1("temperature"));
    s.set(&mut m.sensor_exists, has_temperature.as_str());
    let s = m.sensor_exists.with_label_values(&string_list1("humidity"));
    s.set(&mut m.sensor_exists, has_humidity.as_str());
    let ghost temp = temperature_samples(d, f);
    let ghost hum = humidity_samples(d, f);
    assert(has_temperature@ == presence(temp));
    assert(has_humidity@ == presence(hum));
    assert(m.sensor_exists@.samples =~= seq![
        sample_line("sensor_exists"@, label_text(type_keys(), seq!["temperature"@]), presence(temp)),
        sample_line("sensor_exists"@, label_text(type_keys(), seq!["humidity"@]), presence(hum)),
    ]);
    assert(m.total_load@.samples =~= seq![sample_line("total_load"@, label_text(seq![], seq![]), values.total_load@)]);
    assert(m.total_load_current@.samples =~= seq![
        sample_line("total_load_current"@, label_text(seq![], seq![]), values.total_load_current@),
    ]);
    assert(m@ =~= metrics_gauges(d, f, values.total_load@, values.total_load_current@));
    m.export_metrics()
}

} // verus!

use pdu_exporter::pdu::metrics::{build_metrics, process_metrics, FormattedValues, GaugeVec};
use pdu_exporter::pdu::{METRIC_STEP, RAW_DATA_LENGTH};

/// The exposition text computed directly with std, sample by sample.
fn expected_text(data: &[String], fmt: &[String], total_load: &str, total_current: &str) -> String {
    struct G {
        name: &'static str,
        help: &'static str,
        samples: Vec<String>,
    }
    let mut gauges = vec![
        G { name: "current", help: "Current in ampere", samples: vec![] },
        G { name: "voltage", help: "Voltage in volt", samples: vec![] },
        G { name: "power", help: "Power in watt", samples: vec![] },
        G { name: "power_factor", help: "Power factor in ratio (0.0 - 1.0)", samples: vec![] },
        G { name: "energy", help: "Energy in kWh", samples: vec![] },
        G { name: "temperature", help: "Temperature in celsius", samples: vec![] },
        G { name: "humidity", help: "Humidity in percent", samples: vec![] },
        G { name: "sensor_exists", help: "Sensor exists (bool)", samples: vec![] },
        G { name: "total_load", help: "Total load in watt(W)", samples: vec![] },
        G { name: "total_load_current", help: "Total load current in ampere(A)", samples: vec![] },
    ];
    for (a, i) in (0..RAW_DATA_LENGTH).step_by(METRIC_STEP).enumerate() {
        let addr = a + 1;
        for (g, off) in [(0usize, 10usize), (1, 11), (2, 12), (3, 13), (4, 14)] {
            let name = gauges[g].name;
            gauges[g].samples.push(format!("{}{{address=\"{}\"}} {}", name, addr, fmt[i + off]));
        }
        for j in 0..16 {
            let index = i + 15 + j * 3;
            if !data[index].is_empty() {
                gauges[5].samples.push(format!(
                    "temperature{{address=\"{}\",channel=\"{}\"}} {}", addr, j + 1, fmt[index + 1]
                ));
                gauges[6].samples.push(format!(
                    "humidity{{address=\"{}\",channel=\"{}\"}} {}", addr, j + 1, fmt[index + 2]
                ));
            }
        }
    }
    let ht = if gauges[5].samples.is_empty() { "0" } else { "1" };
    let hh = if gauges[6].samples.is_empty() { "0" } else { "1" };
    gauges[8].samples.push(format!("total_load {}", total_load));
    gauges[9].samples.push(format!("total_load_current {}", total_current));
    gauges[7].samples.push(format!("sensor_exists{{type=\"temperature\"}} {}", ht));
    gauges[7].samples.push(format!("sensor_exists{{type=\"humidity\"}} {}", hh));
    gauges.sort_by(|a, b| a.name.cmp(b.name));
    gauges
        .iter_mut()
        .filter(|g| !g.samples.is_empty())
        .map(|g| {
            g.samples.sort();
            format!("# HELP {n} {h}\n# TYPE {n} gauge\n{}", g.samples.join("\n"), n = g.name, h = g.help)
        })
        .collect::<Vec<_>>()
        .join("\n")
}

fn sample_data(with_sensors: bool) -> Vec<String> {
    let mut data = vec![String::new(); RAW_DATA_LENGTH];
    for a in 0..32 {
        let i = a * METRIC_STEP;
        data[i + 1] = format!("Rack {}", a % 5);
        for k in 10..15 {
            data[i + k] = format!("{}.{}", a, k);
        }
        if with_sensors && a % 3 == 0 {
            for j in [0usize, 4, 15] {
                let index = i + 15 + j * 3;
                data[index] = format!("sensor{}", j);
                data[index + 1] = format!("2{}.5", j);
                data[index + 2] = format!("4{}", j);
            }
        }
    }
    data
}

fn values_of(data: &[String]) -> FormattedValues {
    FormattedValues {
        fields: data.iter().map(|s| if s.is_empty() { "0".to_string() } else { s.clone() }).collect(),
        total_load: "123.5".to_string(),
        total_load_current: "7".to_string(),
    }
}

#[test]
fn process_metrics_matches_direct_computation_with_sensors() {
    let data = sample_data(true);
    let values = values_of(&data);
    let text = process_metrics(&data, &values);
    assert_eq!(text, expected_text(&data, &values.fields, "123.5", "7"));
    assert!(text.starts_with("# HELP current Current in ampere\n# TYPE current gauge\ncurrent{address=\"1\"} 0.10\ncurrent{address=\"10\"} 9.10\n"));
    assert!(text.contains("sensor_exists{type=\"temperature\"} 1"));
    assert!(text.contains("temperature{address=\"4\",channel=\"16\"} 215.5"));
    assert!(text.ends_with("voltage{address=\"9\"} 8.11"));
}

#[test]
fn process_metrics_without_sensors_leaves_sensor_gauges_out() {
    let data = sample_data(false);
    let values = values_of(&data);
    let text = process_metrics(&data, &values);
    assert_eq!(text, expected_text(&data, &values.fields, "123.5", "7"));
    assert!(!text.contains("# HELP temperature"));
    assert!(!text.contains("# HELP humidity"));
    assert!(text.contains("sensor_exists{type=\"humidity\"} 0"));
    assert!(text.contains("\ntotal_load 123.5\n"));
}

#[test]
fn gauge_renders_sorted_samples() {
    let mut g = GaugeVec::new("g", "help text", vec!["k".to_string(), "l".to_string()]);
    let s = g.with_label_values(&vec!["b".to_string()]);
    assert_eq!(s.labels, "k=\"b\"");
    s.set(&mut g, "2");
    let s = g.with_label_values(&vec!["a".to_string(), "x".to_string(), "extra".to_string()]);
    assert_eq!(s.labels, "k=\"a\",l=\"x\"");
    s.set(&mut g, "1");
    assert_eq!(g.render(), "# HELP g help text\n# TYPE g gauge\ng{k=\"a\",l=\"x\"} 1\ng{k=\"b\"} 2");
    assert_eq!(g.samples, vec!["g{k=\"a\",l=\"x\"} 1".to_string(), "g{k=\"b\"} 2".to_string()]);
}

#[test]
fn gauge_without_labels_writes_name_and_value() {
    let mut g = GaugeVec::new("total", "t", Vec::new());
    let s = g.with_label_values(&Vec::new());
    s.set(&mut g, "5");
    assert_eq!(g.samples, vec!["total 5".to_string()]);
}

#[test]
fn empty_gauges_are_left_out_of_export() {
    let m = build_metrics();
    assert_eq!(m.export_metrics(), "");
    let mut m = build_metrics();
    let s = m.voltage.with_label_values(&vec!["3".to_string()]);
    s.set(&mut m.voltage, "230");
    let s = m.current.with_label_values(&vec!["3".to_string()]);
    s.set(&mut m.current, "1.5");
    assert_eq!(
        m.export_metrics(),
        "# HELP current Current in ampere\n# TYPE current gauge\ncurrent{address=\"3\"} 1.5\n# HELP voltage Voltage in volt\n# TYPE voltage gauge\nvoltage{address=\"3\"} 230"
    );
}

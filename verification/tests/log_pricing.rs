use shipment_discounts::shipments::process_shipments;

fn trim_data(data: &str) -> String {
    data.lines()
        .filter_map(|line| {
            let line = line.trim();
            if line == "" {
                return None;
            } else {
                Some(line)
            }
        })
        .collect::<Vec<&str>>()
        .join("\n")
}

fn lines_of(input: &str) -> Vec<String> {
    input.lines().map(|line| line.to_string()).collect()
}

#[test]
fn small_shipment_should_work() {
    let input = "\n        2015-02-01 S MR\n        ";
    let shipments = process_shipments(lines_of(input));
    let expected = "\n        2015-02-01 S MR 1.50 0.50\n        ";
    assert_eq!(trim_data(expected), shipments.render());
}

#[test]
fn small_shipments_should_work() {
    let input = "2015-02-01 S MR\n".repeat(4);
    let shipments = process_shipments(lines_of(&input));
    let expected = "2015-02-01 S MR 1.50 0.50\n".repeat(4);
    assert_eq!(trim_data(&expected), shipments.render());
}

#[test]
fn discounts_limits_for_small_shipments_should_work() {
    let input = "2015-02-01 S MR\n".repeat(21);
    let shipments = process_shipments(lines_of(&input));
    let mut expected = "2015-02-01 S MR 1.50 0.50\n".repeat(20);
    expected += "2015-02-01 S MR 2.00 -";
    assert_eq!(trim_data(&expected), shipments.render());
}

#[test]
fn large_shipments_should_work() {
    let input = "2015-02-03 L LP\n".repeat(3);
    let shipments = process_shipments(lines_of(&input));
    let mut expected = "2015-02-03 L LP 6.90 -\n".repeat(2);
    expected += "2015-02-03 L LP 0.00 6.90";
    assert_eq!(trim_data(&expected), shipments.render());
}

#[test]
fn discount_limits_for_large_shipments_should_work() {
    let input = "2015-02-03 L LP\n".repeat(6);
    let shipments = process_shipments(lines_of(&input));
    let mut expected = "2015-02-03 L LP 6.90 -\n".repeat(2);
    expected += "2015-02-03 L LP 0.00 6.90\n";
    expected += "2015-02-03 L LP 6.90 -\n".repeat(3).as_str();
    assert_eq!(trim_data(&expected), shipments.render());
}

#[test]
fn mixed_discounts_should_work() {
    let input = "2015-02-03 L LP\n".repeat(6) + "2015-02-01 S MR\n";
    let shipments = process_shipments(lines_of(&input));
    let mut expected = "2015-02-03 L LP 6.90 -\n".repeat(2);
    expected += "2015-02-03 L LP 0.00 6.90\n";
    expected += "2015-02-03 L LP 6.90 -\n".repeat(3).as_str();
    expected += "2015-02-01 S MR 1.50 0.50\n";
    assert_eq!(trim_data(&expected), shipments.render());
}

use rawk_core::Awk;

const COUNTRIES: &str = "USSR\t8649\t275\tAsia
Canada\t3852\t25\tNorth America
China\t3705\t1032\tAsia
USA\t3615\t237\tNorth America
Brazil\t3286\t134\tSouth America
India\t1267\t746\tAsia
Mexico\t762\t78\tNorth America
France\t211\t55\tEurope
Japan\t144\t120\tAsia
Germany\t96\t61\tEurope
England\t94\t56\tEurope
";

fn assert_script_output_matches(script: &str, data: &str, expected_data: &str) {
    let input: Vec<String> = data.lines().map(str::to_string).collect();
    let expected: Vec<String> = expected_data.lines().map(str::to_string).collect();

    let awk = Awk::new(script).expect("the script parses");
    let output = awk.run(input, None);

    assert_eq!(output, expected);
}

#[test]
fn p1() {
    let script = "{ print }\n";
    let expected_data = COUNTRIES;

    assert_script_output_matches(script, COUNTRIES, expected_data);
}

#[test]
fn p2() {
    let script = "{ print $1, $3 }\n";
    let expected_data = "USSR 275
Canada 25
China 1032
USA 237
Brazil 134
India 746
Mexico 78
France 55
Japan 120
Germany 61
England 56
";

    assert_script_output_matches(script, COUNTRIES, expected_data);
}

#[test]
fn p3() {
    let script = "{ printf \"[%10s] [%-16d]\\n\", $1, $3 }\n";
    let expected_data = "[      USSR] [275             ]
[    Canada] [25              ]
[     China] [1032            ]
[       USA] [237             ]
[    Brazil] [134             ]
[     India] [746             ]
[    Mexico] [78              ]
[    France] [55              ]
[     Japan] [120             ]
[   Germany] [61              ]
[   England] [56              ]
";

    assert_script_output_matches(script, COUNTRIES, expected_data);
}

#[test]
fn p4() {
    let script = "{ print NR, $0 }\n";
    let expected_data = "1 USSR\t8649\t275\tAsia
2 Canada\t3852\t25\tNorth America
3 China\t3705\t1032\tAsia
4 USA\t3615\t237\tNorth America
5 Brazil\t3286\t134\tSouth America
6 India\t1267\t746\tAsia
7 Mexico\t762\t78\tNorth America
8 France\t211\t55\tEurope
9 Japan\t144\t120\tAsia
10 Germany\t96\t61\tEurope
11 England\t94\t56\tEurope
";

    assert_script_output_matches(script, COUNTRIES, expected_data);
}

#[test]
fn p5() {
    let script = "BEGIN\t{ FS = \"\\t\"\n\t  printf \"Country\\t\\t  Area\\tPopulation\\tContinent\\n\\n\"}\n\t{ printf \"%-10s\\t%6d\\t%6d\\t\\t%-14s\\n\", $1, $2, $3, $4}\nEND\t{ print \"The number of records is\", NR}\n";
    let expected_data = "Country       Area  Population  Continent\n\
USSR          8649     275      Asia          \n\
Canada        3852      25      North America \n\
China         3705    1032      Asia          \n\
USA           3615     237      North America \n\
Brazil        3286     134      South America \n\
India         1267     746      Asia          \n\
Mexico         762      78      North America \n\
France         211      55      Europe        \n\
Japan          144     120      Asia          \n\
Germany         96      61      Europe        \n\
England         94      56      Europe        \n\
The number of records is 11\n";

    assert_script_output_matches(script, COUNTRIES, expected_data);
}

#[test]
fn p6() {
    let script = "END { print NR }\n";
    let expected_data = "11\n";

    assert_script_output_matches(script, COUNTRIES, expected_data);
}

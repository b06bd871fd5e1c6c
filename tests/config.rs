use sea_lantern::config::{get_property_descriptions, parse_server_properties, read_properties, write_properties};

fn pairs(v: &[(&str, &str)]) -> Vec<(String, String)> {
    v.iter().map(|(k, v)| (k.to_string(), v.to_string())).collect()
}

#[test]
fn reads_properties_skipping_comments_and_blank_lines() {
    let content = "# comment\n\n motd = Hello World \r\nmax-players=20\nbroken line\nmotd=Again\n=x\n";
    assert_eq!(read_properties(content), pairs(&[("motd", "Again"), ("max-players", "20"), ("", "x")]));
    assert!(read_properties("").is_empty());
    assert_eq!(read_properties("a=b=c"), pairs(&[("a", "b=c")]));
}

#[test]
fn rewrites_values_keeping_layout_and_appends_new_keys() {
    let existing = "#Minecraft server properties\nmotd=Old\n\nmax-players = 10\nother\n";
    let values = pairs(&[("max-players", "30"), ("pvp", "false")]);
    assert_eq!(
        write_properties(existing, &values),
        "#Minecraft server properties\nmotd=Old\n\nmax-players=30\nother\npvp=false\n"
    );
    assert_eq!(write_properties("", &pairs(&[("a", "1")])), "a=1\n");
    assert_eq!(write_properties("x=1\r\ny=2", &Vec::new()), "x=1\ny=2\n");
}

#[test]
fn describes_and_sorts_server_properties() {
    let props = parse_server_properties("server-port=25565\nmotd=Hi\nzzz=1\nmax-players=8\ndifficulty=hard\n");
    assert_eq!(props.raw.len(), 5);
    let order: Vec<(&str, &str)> = props.entries.iter().map(|e| (e.category.as_str(), e.key.as_str())).collect();
    assert_eq!(
        order,
        vec![("display", "motd"), ("game", "difficulty"), ("network", "server-port"), ("other", "zzz"), ("player", "max-players")]
    );
    let port = props.entries.iter().find(|e| e.key == "server-port").unwrap();
    assert_eq!(port.value_type, "number");
    assert_eq!(port.default_value, "25565");
    assert_eq!(port.description, "服务器端口");
    let other = props.entries.iter().find(|e| e.key == "zzz").unwrap();
    assert_eq!((other.value_type.as_str(), other.description.as_str(), other.default_value.as_str()), ("string", "", ""));
}

#[test]
fn description_table_has_every_known_property() {
    let t = get_property_descriptions();
    assert_eq!(t.len(), 31);
    assert_eq!(t[0].0, "server-port");
    assert!(t.iter().any(|r| r.0 == "motd" && r.1 .2 == "A Minecraft Server"));
}

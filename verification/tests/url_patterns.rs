// Compares the parsers with the regular expressions that describe the
// same grammar, on many small inputs.
use daysquare_backend::parsers::url::{
    parse_api_path, parse_path_param, try_parse_api_url, PathParam, PathParamError,
};
use regex::Regex;

fn url_pattern() -> Regex {
    Regex::new(
        r"(?x)
                (?P<base>https?://(?:\S+?))
                \|
                (?P<ver>\S+?)
                (?P<paths>/[^?\s]+)
                (?:\?(
                      ?P<queries>(\S+)
                ))?$
            ",
    )
    .unwrap()
}

fn param_pattern() -> Regex {
    Regex::new(
        r"(?x)
                \{
                (?P<name>\S[^,]+?)
                ,
                (?P<data_type>\S[^,]+?)
                \}
            ",
    )
    .unwrap()
}

fn reference_param<'a>(re: &Regex, invalid: &Regex, param: &'a str) -> Result<PathParam<'a>, PathParamError> {
    if param.is_empty() {
        return Err(PathParamError::EmptyParam);
    }
    match re.captures(param) {
        None => match invalid.find(param) {
            None => Ok(PathParam { name: param, data_type: "const" }),
            Some(_) => Err(PathParamError::IllFormedParam(param.to_string())),
        },
        Some(m) => Ok(PathParam {
            name: m.name("name").unwrap().as_str(),
            data_type: m.name("data_type").unwrap().as_str(),
        }),
    }
}

fn all_strings(alphabet: &[char], max_len: usize) -> Vec<String> {
    let mut out = vec![String::new()];
    let mut layer = vec![String::new()];
    for _ in 0..max_len {
        let mut next = Vec::new();
        for s in &layer {
            for c in alphabet {
                let mut t = s.clone();
                t.push(*c);
                next.push(t);
            }
        }
        out.extend(next.iter().cloned());
        layer = next;
    }
    out
}

#[test]
fn path_params_agree_with_pattern() {
    let re = param_pattern();
    let invalid = Regex::new(r"[\{\},]").unwrap();
    for s in all_strings(&['{', '}', ',', 'a', ' ', 'b'], 6) {
        assert_eq!(parse_path_param(&s), reference_param(&re, &invalid, &s), "input {:?}", s);
    }
}

#[test]
fn api_urls_agree_with_pattern() {
    let re = url_pattern();
    let bodies = all_strings(&['|', '/', '?', 'v', ' ', '=', '&'], 5);
    let prefixes = ["http://a", "https://a", "xhttp://a", " http://a", "http://a|", "http://"];
    for p in prefixes.iter() {
        for b in &bodies {
            let url = format!("{}{}", p, b);
            let trimmed = url.trim();
            let expected = re.captures(trimmed).map(|c| {
                (
                    c.name("base").unwrap().as_str().to_string(),
                    c.name("ver").unwrap().as_str().to_string(),
                    c.name("paths").unwrap().as_str().to_string(),
                    c.name("queries").map(|q| q.as_str().to_string()),
                )
            });
            let got = try_parse_api_url(&url);
            match expected {
                None => assert!(got.is_none(), "input {:?}", url),
                Some((base, ver, paths, queries)) => {
                    let paths_ok = parse_api_path(&paths).is_ok();
                    let queries_ok = queries
                        .as_ref()
                        .map_or(true, |q| daysquare_backend::parsers::url::parse_api_queries(q).is_ok());
                    if paths_ok && queries_ok {
                        let got = got.expect(&url);
                        assert_eq!(got.url, base, "input {:?}", url);
                        assert_eq!(got.ver, ver, "input {:?}", url);
                        assert_eq!(got.paths, parse_api_path(&paths).unwrap(), "input {:?}", url);
                        assert_eq!(got.queries.is_some(), queries.is_some(), "input {:?}", url);
                    } else {
                        assert!(got.is_none(), "input {:?}", url);
                    }
                }
            }
        }
    }
}

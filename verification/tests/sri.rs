use bugsee_cli::inject::is_script;
use bugsee_cli::paths::{file_name, lexical_normalize, parent, parse_path, same_path, Part};
use bugsee_cli::sri::{
    check_pins, find_pinned_scripts, is_html, list_page_pins, page_base, pages_that_count, path_of_url,
    resolve_pinned_target, unquote, Page, PinnedScript,
};

/// A few files below one directory.
struct Disk {
    files: Vec<(Vec<Part>, String)>,
}

fn at(rel: &str) -> Vec<Part> {
    lexical_normalize(&parse_path(&format!("/out/{rel}")))
}

fn is_under(p: &[Part], dir: &[Part]) -> bool {
    p.len() > dir.len() && p.starts_with(dir)
}

impl Disk {
    fn new() -> Disk {
        Disk { files: vec![] }
    }

    fn write(&mut self, rel: &str, body: &str) -> Vec<Part> {
        let path = at(rel);
        self.files.retain(|f| f.0 != path);
        self.files.push((path.clone(), body.to_string()));
        path
    }

    fn targets_of(&self, dir: &[Part]) -> Vec<Vec<Part>> {
        self.files
            .iter()
            .filter(|f| is_under(&f.0, dir) && is_script(&file_name(&f.0).unwrap()))
            .map(|f| f.0.clone())
            .collect()
    }

    fn pages(&self, keep: impl Fn(&Vec<Part>) -> bool) -> Vec<Vec<Part>> {
        self.files
            .iter()
            .filter(|f| is_html(&file_name(&f.0).unwrap()) && keep(&f.0))
            .map(|f| f.0.clone())
            .collect()
    }

    fn read(&self, path: Vec<Part>) -> Page {
        let source = self.files.iter().find(|f| f.0 == path).unwrap().1.clone();
        Page { path, source }
    }

    fn find(&self, roots: &[Vec<Part>], targets: &[Vec<Part>]) -> Vec<PinnedScript> {
        let mut pages = vec![];
        for root in roots {
            let base = page_base(root, self.files.iter().any(|f| f.0 == *root));
            let under = self.pages(|p| is_under(p, &base));
            let above = match parent(&base) {
                Some(up) => self.pages(|p| same_path(&parent(p).unwrap(), &up)),
                None => vec![],
            };
            pages.extend(pages_that_count(under, above).into_iter().map(|p| self.read(p)));
        }
        find_pinned_scripts(&roots.to_vec(), &targets.to_vec(), &pages)
    }

    fn pinned_in(&self, targets: &[Vec<Part>]) -> Vec<Vec<Part>> {
        self.find(&[at("")], targets).into_iter().map(|p| p.script).collect()
    }

    fn pinned(&self) -> Vec<Vec<Part>> {
        self.pinned_in(&self.targets_of(&at("")))
    }
}

#[test]
fn a_pinned_entry_script_is_found() {
    let mut disk = Disk::new();
    disk.write("main.abc123.js", "console.log(1)");
    disk.write(
        "index.html",
        "<!doctype html><script defer src=main.abc123.js integrity=sha384-KUBb crossorigin=anonymous></script>",
    );

    let found = disk.find(&[at("")], &disk.targets_of(&at("")));
    assert_eq!(found.len(), 1);
    assert_eq!(found[0].script, at("main.abc123.js"));
    assert_eq!(found[0].html, at("index.html"));
}

#[test]
fn a_pinned_modulepreload_counts_but_a_prefetch_does_not() {
    let mut disk = Disk::new();
    disk.write("chunk.js", "1");
    disk.write("later.js", "2");
    disk.write(
        "index.html",
        r#"<link rel="modulepreload" href="chunk.js" integrity="sha384-P">
           <link rel="prefetch" href="later.js" integrity="sha384-Q">"#,
    );

    assert_eq!(disk.pinned(), vec![at("chunk.js")]);
}

#[test]
fn it_reads_the_shapes_bundlers_emit() {
    let mut disk = Disk::new();
    disk.write("a.mjs", "1");
    disk.write("assets/b.cjs", "2");
    disk.write("assets/c.js", "3");
    disk.write(
        "index.html",
        r#"<script integrity="sha512-A" type="module" src='a.mjs'></script>
           <script src="/assets/b.cjs" integrity=sha256-B></script>"#,
    );
    disk.write(
        "nested/page.html",
        r#"<script src="  ../assets/c.js  " INTEGRITY = "sha384-C"></script>"#,
    );

    let mut found = disk.pinned();
    found.sort_by_key(|p| format!("{p:?}"));
    let mut want = vec![
        at("a.mjs"),
        at("assets/b.cjs"),
        at("assets/c.js"),
    ];
    want.sort_by_key(|p| format!("{p:?}"));
    assert_eq!(found, want);
}

#[test]
fn it_does_not_fire_on_anything_we_would_not_break() {
    let mut disk = Disk::new();
    disk.write("main.js", "1");
    disk.write("app.css", "body{}");
    disk.write("app.wasm", "\0asm");
    disk.write("../sibling.js", "1");
    disk.write(
        "index.html",
        r#"<script src="main.js"></script>
           <script src="https://cdn.example/lib.js" integrity="sha384-X"></script>
           <script src="//cdn.example/lib2.js" integrity="sha384-Y"></script>
           <script src="main.js" integrity=""></script>
           <script data-integrity="sha384-Z" data-src="main.js"></script>
           <script integrity="sha384-I">console.log('inline')</script>
           <script src="app.wasm" integrity="sha384-W"></script>
           <link rel="stylesheet" href="app.css" integrity="sha384-S">
           <!-- <script src="main.js" integrity="sha384-C"></script> -->"#,
    );

    assert_eq!(disk.pinned(), Vec::<Vec<Part>>::new());
}

#[test]
fn containment_is_by_path_component_not_by_prefix() {
    let mut disk = Disk::new();
    let out = at("dist");
    disk.write("dist-2/main.js", "1");
    disk.write("vendor.js", "2");
    disk.write(
        "dist/index.html",
        r#"<script src="../dist-2/main.js" integrity="sha384-N"></script>
           <script src="../vendor.js" integrity="sha384-V"></script>"#,
    );

    assert_eq!(
        disk.find(&[out.clone()], &disk.targets_of(&out)),
        Vec::new()
    );
}

#[test]
fn a_file_argument_still_scans_its_directory() {
    let mut disk = Disk::new();
    let js = disk.write("app.js", "1");
    disk.write(
        "index.html",
        r#"<script src="app.js" integrity="sha384-F"></script>"#,
    );

    let found = disk.find(&[js.clone()], &disk.targets_of(&at("")));
    assert_eq!(found.len(), 1, "{found:?}");
    assert_eq!(found[0].script, at("app.js"));
}

#[test]
fn it_is_silent_when_there_is_nothing_to_find() {
    let mut disk = Disk::new();
    disk.write("index.js", "1");
    assert_eq!(disk.pinned(), Vec::<Vec<Part>>::new());
    assert_eq!(
        disk.find(
            &[at("does-not-exist")],
            &disk.targets_of(&at(""))
        ),
        Vec::new()
    );
}

#[test]
fn a_page_under_a_dot_directory_or_node_modules_still_counts() {
    for nested in [".vitepress/dist/index.html", "node_modules/pkg/index.html"] {
        let mut disk = Disk::new();
        disk.write("main.js", "1");
        disk.write(
            nested,
            r#"<script src="/main.js" integrity="sha384-M"></script>"#,
        );

        assert_eq!(
            disk.pinned(),
            vec![at("main.js")],
            "page at {nested} was not seen"
        );
    }
}

#[test]
fn a_page_one_level_above_the_given_path_still_counts() {
    let mut disk = Disk::new();
    disk.write("assets/main.abc.js", "1");
    disk.write(
        "index.html",
        r#"<script src="/assets/main.abc.js" integrity="sha384-V"></script>"#,
    );

    let assets = at("assets");
    let targets = disk.targets_of(&assets);
    assert_eq!(
        disk.find(&[assets.clone()], &targets)
            .into_iter()
            .map(|p| p.script)
            .collect::<Vec<_>>(),
        vec![at("assets/main.abc.js")],
        "a page in the parent directory pins a file we would stamp"
    );

    let one = at("assets/main.abc.js");
    assert_eq!(
        disk.find(&[one.clone()], &targets).len(),
        1
    );
}

#[test]
fn a_cdn_public_path_still_resolves_to_the_local_file() {
    let mut disk = Disk::new();
    disk.write("main.abc123.js", "1");
    disk.write(
        "index.html",
        r#"<script src="https://cdn.example.com/assets/main.abc123.js" integrity="sha384-C"></script>"#,
    );

    assert_eq!(disk.pinned(), vec![at("main.abc123.js")]);
}

#[test]
fn a_root_relative_public_path_resolves_by_file_name() {
    let mut disk = Disk::new();
    disk.write("main.js", "1");
    disk.write(
        "index.html",
        r#"<script src="/static/main.js" integrity="sha384-S"></script>"#,
    );

    assert_eq!(disk.pinned(), vec![at("main.js")]);
}

#[test]
fn the_literal_path_decides_when_two_bundles_share_a_name() {
    let mut disk = Disk::new();
    disk.write("en/app.js", "1");
    disk.write("fr/app.js", "2");
    disk.write(
        "fr/index.html",
        r#"<script src="app.js" integrity="sha384-F"></script>"#,
    );

    assert_eq!(disk.pinned(), vec![at("fr/app.js")]);
}

#[test]
fn a_third_party_cdn_script_is_still_ignored() {
    let mut disk = Disk::new();
    disk.write("main.js", "1");
    disk.write(
        "index.html",
        r#"<script src="https://cdn.example.com/jquery-3.7.1.min.js" integrity="sha384-J"></script>"#,
    );

    assert_eq!(disk.pinned(), Vec::<Vec<Part>>::new());
}

#[test]
fn a_pin_on_something_we_will_not_stamp_is_ignored() {
    let mut disk = Disk::new();
    disk.write("main.js", "1");
    disk.write("vendor/pinned.js", "2");
    disk.write(
        "index.html",
        r#"<script src="gone.OLD.js" integrity="sha384-G"></script>
           <script src="vendor/pinned.js" integrity="sha384-V"></script>"#,
    );

    let targets = vec![at("main.js")];
    assert_eq!(disk.pinned_in(&targets), Vec::<Vec<Part>>::new());
}

#[test]
fn a_file_argument_only_counts_pins_on_that_file() {
    let mut disk = Disk::new();
    let app = disk.write("app.js", "1");
    disk.write("main.js", "2");
    disk.write(
        "index.html",
        r#"<script src="main.js" integrity="sha384-M"></script>"#,
    );

    let targets = vec![app.clone()];
    assert_eq!(
        disk.find(&[app.clone()], &targets),
        Vec::new(),
        "only main.js is pinned, and only app.js would be stamped"
    );

    disk.write(
        "index.html",
        r#"<script src="app.js" integrity="sha384-A"></script>"#,
    );
    assert_eq!(
        disk.find(&[app.clone()], &targets).len(),
        1
    );
}

#[test]
fn it_reads_htm_and_xhtml_and_deep_pages() {
    let mut disk = Disk::new();
    disk.write("a.js", "1");
    disk.write("b.js", "2");
    disk.write(
        "legacy.htm",
        r#"<script src="/a.js" integrity="sha384-A"></script>"#,
    );
    disk.write(
        "a/b/c/d/e/f/g/h/i/deep.xhtml",
        r#"<script src="/b.js" integrity="sha384-B"/>"#,
    );

    let mut found = disk.pinned();
    found.sort_by_key(|p| format!("{p:?}"));
    let mut want = vec![at("a.js"), at("b.js")];
    want.sort_by_key(|p| format!("{p:?}"));
    assert_eq!(found, want);
}

#[test]
fn multiline_comments_and_both_preload_rels() {
    let mut disk = Disk::new();
    disk.write("commented.js", "1");
    disk.write("preloaded.js", "2");
    disk.write(
        "index.html",
        "<!--\n<script src=\"commented.js\" integrity=\"sha384-C\"></script>\n-->\n             <link rel=\"preload\" as=\"script\" href=\"preloaded.js\" integrity=\"sha384-P\">",
    );

    assert_eq!(disk.pinned(), vec![at("preloaded.js")]);
}

#[test]
fn stamping_a_pinned_script_is_refused_unless_allowed() {
    let mut disk = Disk::new();
    disk.write("main.js", "1");
    disk.write("index.html", "<script src=main.js integrity=sha384-M></script>");
    let pinned = disk.find(&[at("")], &disk.targets_of(&at("")));
    let e = check_pins(&pinned, false).unwrap_err();
    assert!(e.message().contains("pins the hashes of 1 script(s)"));
    assert!(check_pins(&pinned, true).is_ok());
    assert!(check_pins(&vec![], false).is_ok());
}

#[test]
fn values_are_unquoted_and_urls_cut_down_to_their_path() {
    assert_eq!(unquote("\"a\""), "a");
    assert_eq!(unquote("'a'"), "a");
    assert_eq!(unquote("a"), "a");
    assert_eq!(path_of_url("https://cdn.example/x/a.js?v=1#f"), "x/a.js");
    assert_eq!(path_of_url(" /a.js "), "/a.js");
    assert_eq!(path_of_url("//cdn.example/a.js"), "a.js");
}

#[test]
fn a_page_lists_the_urls_that_it_pins() {
    let html = "<script src=a.js integrity=x></script><script src=b.js></script>";
    assert_eq!(list_page_pins(html), vec!["a.js"]);
    let hit = resolve_pinned_target(&vec![at("")], &vec![at("a.js")], &at("sub"), "/a.js");
    assert_eq!(hit, Some(at("a.js")));
}

#[test]
fn paths_are_normalized_by_their_text() {
    let n = |t: &str| lexical_normalize(&parse_path(t));
    assert_eq!(n("/a/./b/../c"), parse_path("/a/c"));
    assert_eq!(n("../a"), parse_path("a"));
    assert_eq!(n("/.."), parse_path("/"));
}

#[test]
fn pages_above_count_only_where_there_are_none_below() {
    let one = |t: &str| vec![at(t)];
    assert_eq!(pages_that_count(one("d/a.html"), one("b.html")), one("d/a.html"));
    assert_eq!(pages_that_count(vec![], one("b.html")), one("b.html"));
    assert!(pages_that_count(vec![], vec![]).is_empty());
}

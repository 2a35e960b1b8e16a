//! The mapping between the name of a package you install and the name of
//! the module you import, where no naming convention derives one from the
//! other.
//!
//! Some entries also exploit the aliases generated automatically from every
//! name (see `matching`), e.g. `databricks-sql` is also tried as
//! `databricks.sql`. Please keep the list sorted by package name.

use vstd::prelude::*;

use crate::text::{lemma_seq_lt_transitive, seq_lt, str_eq, strictly_sorted};

verus! {

/// The known (package name, import name) pairs, sorted by package name.
pub open spec fn known_names_spec() -> Seq<(Seq<char>, Seq<char>)> {
    seq![
        ("Flask"@, "flask"@),
        ("Markdown"@, "markdown"@),
        ("PyYAML"@, "yaml"@),
        ("SQLAlchemy"@, "sqlalchemy"@),
        ("Wand"@, "wand"@),
        ("amplitude-analytics"@, "amplitude"@),
        ("argon2-cffi"@, "argon2"@),
        ("beautifulsoup4"@, "bs4"@),
        ("boto3-stubs"@, "mypy_boto3_iam"@),
        ("celery-redbeat"@, "redbeat"@),
        ("databricks-sdk"@, "databricks.sdk"@),
        ("databricks-sql-connector"@, "databricks-sql"@),
        ("faiss-cpu"@, "faiss"@),
        ("faiss-gpu"@, "faiss"@),
        ("google-api-python-client"@, "googleapiclient"@),
        ("google-cloud-pubsub"@, "google-cloud-pubsub_v1"@),
        ("grpcio"@, "grpc"@),
        ("hydra-colorlog"@, "colorlog"@),
        ("hydra-core"@, "hydra"@),
        ("json-stream"@, "json_stream"@),
        ("jupyter"@, "IPython"@),
        ("levenshtein"@, "Levenshtein"@),
        ("opensearch-py"@, "opensearchpy"@),
        ("opentelemetry-api"@, "opentelemetry"@),
        ("opentelemetry-test-utils"@, "opentelemetry-test"@),
        ("pdfminer.six"@, "pdfminer"@),
        ("protobuf"@, "google.protobuf"@),
        ("pyautogen"@, "autogen"@),
        ("pybars3"@, "pybars"@),
        ("pydocket"@, "docket"@),
        ("pyserial"@, "serial"@),
        ("python-dateutil"@, "dateutil"@),
        ("python-jose"@, "jose"@),
        ("python-multipart"@, "multipart"@),
        ("python-slugify"@, "slugify"@),
        ("python-ulid"@, "ulid"@),
        ("pytorch-nlp"@, "torchnlp"@),
        ("pyvespa"@, "vespa"@),
        ("pyyaml"@, "yaml"@),
        ("scikit-learn"@, "sklearn"@),
        ("snowflake-connector-python"@, "snowflake"@),
        ("unicodedata2"@, "unicodedata"@),
        ("vl-convert-python"@, "vl_convert"@),
    ]
}

/// The import name listed for a package name: the first entry with that
/// package name.
pub open spec fn listed_alias(table: Seq<(Seq<char>, Seq<char>)>, name: Seq<char>) -> Option<
    Seq<char>,
>
    decreases table.len(),
{
    if table.len() == 0 {
        None
    } else if table[0].0 == name {
        Some(table[0].1)
    } else {
        listed_alias(table.drop_first(), name)
    }
}

/// The import name known for a package name.
pub open spec fn spec_known_name(name: Seq<char>) -> Option<Seq<char>> {
    listed_alias(known_names_spec(), name)
}

/// The texts of a table of string pairs.
pub open spec fn pair_views(v: Seq<(&str, &str)>) -> Seq<(Seq<char>, Seq<char>)> {
    v.map_values(|p: (&str, &str)| (p.0@, p.1@))
}

/// The known (package name, import name) pairs, sorted by package name.
pub fn known_names() -> (r: Vec<(&'static str, &'static str)>)
    ensures
        pair_views(r@) == known_names_spec(),
{
    let r = vec![
        ("Flask", "flask"),
        ("Markdown", "markdown"),
        ("PyYAML", "yaml"),
        ("SQLAlchemy", "sqlalchemy"),
        ("Wand", "wand"),
        ("amplitude-analytics", "amplitude"),
        ("argon2-cffi", "argon2"),
        ("beautifulsoup4", "bs4"),
        ("boto3-stubs", "mypy_boto3_iam"),
        ("celery-redbeat", "redbeat"),
        ("databricks-sdk", "databricks.sdk"),
        ("databricks-sql-connector", "databricks-sql"),
        ("faiss-cpu", "faiss"),
        ("faiss-gpu", "faiss"),
        ("google-api-python-client", "googleapiclient"),
        ("google-cloud-pubsub", "google-cloud-pubsub_v1"),
        ("grpcio", "grpc"),
        ("hydra-colorlog", "colorlog"),
        ("hydra-core", "hydra"),
        ("json-stream", "json_stream"),
        ("jupyter", "IPython"),
        ("levenshtein", "Levenshtein"),
        ("opensearch-py", "opensearchpy"),
        ("opentelemetry-api", "opentelemetry"),
        ("opentelemetry-test-utils", "opentelemetry-test"),
        ("pdfminer.six", "pdfminer"),
        ("protobuf", "google.protobuf"),
        ("pyautogen", "autogen"),
        ("pybars3", "pybars"),
        ("pydocket", "docket"),
        ("pyserial", "serial"),
        ("python-dateutil", "dateutil"),
        ("python-jose", "jose"),
        ("python-multipart", "multipart"),
        ("python-slugify", "slugify"),
        ("python-ulid", "ulid"),
        ("pytorch-nlp", "torchnlp"),
        ("pyvespa", "vespa"),
        ("pyyaml", "yaml"),
        ("scikit-learn", "sklearn"),
        ("snowflake-connector-python", "snowflake"),
        ("unicodedata2", "unicodedata"),
        ("vl-convert-python", "vl_convert"),
    ];
    assert(pair_views(r@) =~= known_names_spec());
    r
}

/// The import name known for a package name, if the list has one.
pub fn known_name(name: &str) -> (r: Option<&'static str>)
    ensures
        match r {
            Some(alias) => spec_known_name(name@) == Some(alias@),
            None => spec_known_name(name@) is None,
        },
{
    let table = known_names();
    let mut i: usize = 0;
    assert(pair_views(table@).skip(0) =~= pair_views(table@));
    while i < table.len()
        invariant
            i <= table@.len(),
            pair_views(table@) == known_names_spec(),
            spec_known_name(name@) == listed_alias(pair_views(table@).skip(i as int), name@),
        decreases table@.len() - i,
    {
        assert(pair_views(table@).skip(i as int)[0] == (table@[i as int].0@, table@[i as int].1@));
        assert(pair_views(table@).skip(i as int).drop_first() =~= pair_views(table@).skip(i + 1));
        if str_eq(table[i].0, name) {
            return Some(table[i].1);
        }
        i = i + 1;
    }
    None
}

} // verus!

verus! {

/// Each adjacent pair of package names in the table is in ascending order.
proof fn lemma_known_names_adjacent_ascending()
    ensures
        forall|k: int|
            0 <= k < known_names_spec().len() - 1 ==> seq_lt(
                #[trigger] known_names_spec()[k].0,
                known_names_spec()[k + 1].0,
            ),
{
    reveal_strlit("Flask");
    reveal_strlit("Markdown");
    reveal_strlit("PyYAML");
    reveal_strlit("SQLAlchemy");
    reveal_strlit("Wand");
    reveal_strlit("amplitude-analytics");
    reveal_strlit("argon2-cffi");
    reveal_strlit("beautifulsoup4");
    reveal_strlit("boto3-stubs");
    reveal_strlit("celery-redbeat");
    reveal_strlit("databricks-sdk");
    reveal_strlit("databricks-sql-connector");
    reveal_strlit("faiss-cpu");
    reveal_strlit("faiss-gpu");
    reveal_strlit("google-api-python-client");
    reveal_strlit("google-cloud-pubsub");
    reveal_strlit("grpcio");
    reveal_strlit("hydra-colorlog");
    reveal_strlit("hydra-core");
    reveal_strlit("json-stream");
    reveal_strlit("jupyter");
    reveal_strlit("levenshtein");
    reveal_strlit("opensearch-py");
    reveal_strlit("opentelemetry-api");
    reveal_strlit("opentelemetry-test-utils");
    reveal_strlit("pdfminer.six");
    reveal_strlit("protobuf");
    reveal_strlit("pyautogen");
    reveal_strlit("pybars3");
    reveal_strlit("pydocket");
    reveal_strlit("pyserial");
    reveal_strlit("python-dateutil");
    reveal_strlit("python-jose");
    reveal_strlit("python-multipart");
    reveal_strlit("python-slugify");
    reveal_strlit("python-ulid");
    reveal_strlit("pytorch-nlp");
    reveal_strlit("pyvespa");
    reveal_strlit("pyyaml");
    reveal_strlit("scikit-learn");
    reveal_strlit("snowflake-connector-python");
    reveal_strlit("unicodedata2");
    reveal_strlit("vl-convert-python");
    reveal_with_fuel(seq_lt, 16);
    let t = known_names_spec();
    assert(seq_lt(t[0].0, t[1].0));
    assert(seq_lt(t[1].0, t[2].0));
    assert(seq_lt(t[2].0, t[3].0));
    assert(seq_lt(t[3].0, t[4].0));
    assert(seq_lt(t[4].0, t[5].0));
    assert(seq_lt(t[5].0, t[6].0));
    assert(seq_lt(t[6].0, t[7].0));
    assert(seq_lt(t[7].0, t[8].0));
    assert(seq_lt(t[8].0, t[9].0));
    assert(seq_lt(t[9].0, t[10].0));
    assert(seq_lt(t[10].0, t[11].0));
    assert(seq_lt(t[11].0, t[12].0));
    assert(seq_lt(t[12].0, t[13].0));
    assert(seq_lt(t[13].0, t[14].0));
    assert(seq_lt(t[14].0, t[15].0));
    assert(seq_lt(t[15].0, t[16].0));
    assert(seq_lt(t[16].0, t[17].0));
    assert(seq_lt(t[17].0, t[18].0));
    assert(seq_lt(t[18].0, t[19].0));
    assert(seq_lt(t[19].0, t[20].0));
    assert(seq_lt(t[20].0, t[21].0));
    assert(seq_lt(t[21].0, t[22].0));
    assert(seq_lt(t[22].0, t[23].0));
    assert(seq_lt(t[23].0, t[24].0));
    assert(seq_lt(t[24].0, t[25].0));
    assert(seq_lt(t[25].0, t[26].0));
    assert(seq_lt(t[26].0, t[27].0));
    assert(seq_lt(t[27].0, t[28].0));
    assert(seq_lt(t[28].0, t[29].0));
    assert(seq_lt(t[29].0, t[30].0));
    assert(seq_lt(t[30].0, t[31].0));
    assert(seq_lt(t[31].0, t[32].0));
    assert(seq_lt(t[32].0, t[33].0));
    assert(seq_lt(t[33].0, t[34].0));
    assert(seq_lt(t[34].0, t[35].0));
    assert(seq_lt(t[35].0, t[36].0));
    assert(seq_lt(t[36].0, t[37].0));
    assert(seq_lt(t[37].0, t[38].0));
    assert(seq_lt(t[38].0, t[39].0));
    assert(seq_lt(t[39].0, t[40].0));
    assert(seq_lt(t[40].0, t[41].0));
    assert(seq_lt(t[41].0, t[42].0));
}

/// A sequence whose adjacent elements ascend is strictly sorted.
proof fn lemma_adjacent_ascending_sorted(s: Seq<Seq<char>>)
    requires
        forall|k: int| 0 <= k < s.len() - 1 ==> seq_lt(#[trigger] s[k], s[k + 1]),
    ensures
        strictly_sorted(s),
    decreases s.len(),
{
    if s.len() > 1 {
        let d = s.drop_last();
        assert forall|k: int| 0 <= k < d.len() - 1 implies seq_lt(#[trigger] d[k], d[k + 1]) by {
            assert(d[k] == s[k] && d[k + 1] == s[k + 1]);
        }
        lemma_adjacent_ascending_sorted(d);
        assert forall|i: int, j: int| 0 <= i < j < s.len() implies seq_lt(
            #[trigger] s[i],
            #[trigger] s[j],
        ) by {
            if j < s.len() - 1 {
                assert(d[i] == s[i] && d[j] == s[j]);
            } else if i < j - 1 {
                assert(d[i] == s[i] && d[j - 1] == s[j - 1]);
                assert(seq_lt(s[j - 1], s[j]));
                lemma_seq_lt_transitive(s[i], s[j - 1], s[j]);
            }
        }
    }
}

/// The package names of a table.
pub open spec fn package_names(table: Seq<(Seq<char>, Seq<char>)>) -> Seq<Seq<char>> {
    table.map_values(|p: (Seq<char>, Seq<char>)| p.0)
}

/// The table's package names are strictly ascending, so no package is
/// listed twice.
pub proof fn law_known_names_are_ascending()
    ensures
        strictly_sorted(package_names(known_names_spec())),
{
    lemma_known_names_adjacent_ascending();
    let s = package_names(known_names_spec());
    assert forall|k: int| 0 <= k < s.len() - 1 implies seq_lt(#[trigger] s[k], s[k + 1]) by {
        assert(s[k] == known_names_spec()[k].0);
        assert(s[k + 1] == known_names_spec()[k + 1].0);
    }
    lemma_adjacent_ascending_sorted(s);
}

/// In a table whose package names are all different, the lookup of a listed
/// package name gives the import name listed beside it.
proof fn lemma_listed_alias_of_entry(table: Seq<(Seq<char>, Seq<char>)>, i: int)
    requires
        0 <= i < table.len(),
        forall|a: int, b: int|
            0 <= a < table.len() && 0 <= b < table.len() && a != b ==> #[trigger] table[a].0
                != #[trigger] table[b].0,
    ensures
        listed_alias(table, table[i].0) == Some(table[i].1),
    decreases i,
{
    if i > 0 {
        let d = table.drop_first();
        assert(table[0].0 != table[i].0);
        assert forall|a: int, b: int|
            0 <= a < d.len() && 0 <= b < d.len() && a != b implies #[trigger] d[a].0
                != #[trigger] d[b].0 by {
            assert(table[a + 1].0 != table[b + 1].0);
        }
        lemma_listed_alias_of_entry(d, i - 1);
        assert(d[i - 1] == table[i]);
    }
}

/// The lookup agrees with the table on every entry: for each listed pair of
/// a package name and an import name, the import name known for that
/// package is the one listed (so `Flask` is imported as `flask`).
pub proof fn law_known_name_agrees_with_the_table()
    ensures
        forall|i: int|
            0 <= i < known_names_spec().len() ==> spec_known_name(#[trigger] known_names_spec()[i].0)
                == Some(known_names_spec()[i].1),
{
    law_known_names_are_ascending();
    let t = known_names_spec();
    let s = package_names(t);
    crate::names::lemma_sorted_no_duplicates(s);
    assert forall|a: int, b: int|
        0 <= a < t.len() && 0 <= b < t.len() && a != b implies #[trigger] t[a].0
            != #[trigger] t[b].0 by {
        assert(s[a] == t[a].0 && s[b] == t[b].0);
    }
    assert forall|i: int| 0 <= i < t.len() implies spec_known_name(#[trigger] t[i].0) == Some(
        t[i].1,
    ) by {
        lemma_listed_alias_of_entry(t, i);
    }
}

} // verus!

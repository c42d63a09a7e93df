//! The script that has the desktop application take up a new limit on sub-agents.
use crate::number;
use crate::text;
use vstd::prelude::*;

verus! {

/// The script up to the limit.
pub const RELOAD_SCRIPT_HEAD: &'static str = "(async () => {\n  const urls = [\n    ...Array.from(document.scripts || []).map((script) => script.src),\n    ...Array.from(document.querySelectorAll(\"link[href]\") || []).map((link) => link.href),\n    ...performance.getEntriesByType(\"resource\").map((entry) => entry.name),\n  ].filter(Boolean);\n  const moduleUrl = urls.find((url) =>\n    url.includes(\"/assets/\")\n    && url.includes(\"vscode-api-\")\n    && url.split(\"?\")[0].endsWith(\".js\")\n  );\n  if (!moduleUrl) throw new Error(\"Codex vscode-api asset is unavailable\");\n  const module = await import(moduleUrl);\n  if (typeof module.n !== \"function\") throw new Error(\"Codex state API is unavailable\");\n  return await module.n(\"batch-write-config-value\", {\n    params: {\n      hostId: \"local\",\n      edits: [{\n        keyPath: \"agents.max_threads\",\n        value: ";

/// The script behind the limit.
pub const RELOAD_SCRIPT_TAIL: &'static str = ",\n        mergeStrategy: \"upsert\",\n      }],\n      filePath: null,\n      expectedVersion: null,\n      reloadUserConfig: true,\n    },\n  });\n})()";

/// The script that writes the limit into the configuration and has it read again.
pub fn reload_script(max_threads: u8) -> (r: String)
    ensures
        r@ == RELOAD_SCRIPT_HEAD@ + number::decimal(max_threads as nat) + RELOAD_SCRIPT_TAIL@,
{
    let limit = text::text_of(number::decimal_chars(max_threads as u128).as_slice());
    RELOAD_SCRIPT_HEAD.to_owned().concat(limit.as_str()).concat(RELOAD_SCRIPT_TAIL)
}

/// The script writes the limit, in digits, as the value for the number of threads, and leaves the
/// rest of the configuration.
pub proof fn law_script_writes_the_limit(max_threads: u8, r: String)
    requires
        call_ensures(reload_script, (max_threads,), r),
    ensures
        text::occurs(
            r@,
            "keyPath: \"agents.max_threads\",\n        value: "@ + number::decimal(
                max_threads as nat,
            ) + ",\n        mergeStrategy: \"upsert\",\n      }],"@,
        ),
        text::ends(r@, "reloadUserConfig: true,\n    },\n  });\n})()"@),
{
    reveal_strlit("(async () => {\n  const urls = [\n    ...Array.from(document.scripts || []).map((script) => script.src),\n    ...Array.from(document.querySelectorAll(\"link[href]\") || []).map((link) => link.href),\n    ...performance.getEntriesByType(\"resource\").map((entry) => entry.name),\n  ].filter(Boolean);\n  const moduleUrl = urls.find((url) =>\n    url.includes(\"/assets/\")\n    && url.includes(\"vscode-api-\")\n    && url.split(\"?\")[0].endsWith(\".js\")\n  );\n  if (!moduleUrl) throw new Error(\"Codex vscode-api asset is unavailable\");\n  const module = await import(moduleUrl);\n  if (typeof module.n !== \"function\") throw new Error(\"Codex state API is unavailable\");\n  return await module.n(\"batch-write-config-value\", {\n    params: {\n      hostId: \"local\",\n      edits: [{\n        keyPath: \"agents.max_threads\",\n        value: ");
    reveal_strlit(",\n        mergeStrategy: \"upsert\",\n      }],\n      filePath: null,\n      expectedVersion: null,\n      reloadUserConfig: true,\n    },\n  });\n})()");
    reveal_strlit("keyPath: \"agents.max_threads\",\n        value: ");
    reveal_strlit(",\n        mergeStrategy: \"upsert\",\n      }],");
    reveal_strlit("reloadUserConfig: true,\n    },\n  });\n})()");
    let lead = "keyPath: \"agents.max_threads\",\n        value: "@;
    let trail = ",\n        mergeStrategy: \"upsert\",\n      }],"@;
    let end = "reloadUserConfig: true,\n    },\n  });\n})()"@;
    let limit = number::decimal(max_threads as nat);
    let head = RELOAD_SCRIPT_HEAD@;
    let tail = RELOAD_SCRIPT_TAIL@;
    let at = head.len() - lead.len();
    assert(head.skip(at) =~= lead);
    assert(tail.take(trail.len() as int) =~= trail);
    assert(tail.skip(tail.len() - end.len()) =~= end);
    let written = lead + limit + trail;
    assert(r@.subrange(at, at + written.len()) =~= written) by {
        assert forall|i: int| 0 <= i < written.len() implies r@[at + i] == #[trigger] written[i] by {
            if i < lead.len() {
                assert(head.skip(at)[i] == head[at + i]);
            } else if i >= lead.len() + limit.len() {
                let k = i - lead.len() - limit.len();
                assert(tail.take(trail.len() as int)[k] == tail[k]);
            }
        }
    }
    assert(text::occurs_at(r@, written, at));
    assert(r@.skip(r@.len() - end.len()) =~= tail.skip(tail.len() - end.len()));
    assert(r@.subrange(r@.len() - end.len(), r@.len() as int) =~= end);
    assert(text::occurs_at(r@, end, r@.len() - end.len()));
}

} // verus!

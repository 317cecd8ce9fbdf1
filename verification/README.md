# resume_manager

A local resume manager: text extraction from PDF and DOCX, model-assisted
parsing of resumes into a fixed structure, a SQLite resume library, and
screening of parsed resumes against job descriptions.

The library (`src/`) is written in Verus. Each public function states what it
returns in its contract, and the properties that span several functions are
stated and proved as `law_*` proof functions. Calls into outside crates
(`regex`, `serde_json`, `quick-xml`, `zip`, `time`) sit behind small trusted
wrappers whose doc comments say what is assumed of them. `pdf-extract` can
panic on damaged files, so `app/` calls it, catches that, and hands the text or
the error to the library.

| module | what it holds |
|--------|---------------|
| `text`, `numbers`, `strset`, `search` | char-level text, decimal text, sorted string sets, regex spans |
| `extract` | DOCX text extraction, routing by file type, and clean-up of extracted text |
| `privacy_mask`, `mask_laws`, `surnames` | masking of contact details and names before model calls; restoring them gives the text back for texts without `RM_PRIV_` whose masked segments are exact |
| `llm`, `compat_reply`, `model_reply`, `json_read` | provider routing, retries, reply parsing, token usage |
| `repair`, `validate`, `reindex`, `schema` | repairing model JSON, normalizing resumes, numbering entries |
| `jd`, `screening`, `library`, `progress` | keyword scoring, candidate ranking, library de-duplication |
| `json_resume`, `preview`, `render_lines`, `settings` | JSON Resume export, HTML preview, PDF line layout, settings |

`app/` is the command-line program around the library: files, SQLite, HTTP
calls to the model providers, PDF writing, and the floating-point parts of the
scoring and layout. `tests/` exercises the library on concrete values.

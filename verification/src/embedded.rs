//! The R1 JSON Schema documents pinned into the library.

use vstd::prelude::*;

verus! {

pub const COMMON_SCHEMA: &'static str = r##"{
  "$schema": "https://json-schema.org/draft/2020-12/schema",
  "$id": "https://omir.io/spec/R1/schemas/common.schema.json",
  "title": "OMIR R1 shared definitions",
  "$defs": {
    "Id": {
      "type": "string",
      "pattern": "^[A-Za-z0-9._:-]{1,128}$"
    },
    "Reference": {
      "type": "object",
      "properties": {
        "ref": {
          "type": "string",
          "pattern": "^(MemoryRecord|Entity|Relationship|Episode)/[A-Za-z0-9._:-]{1,128}$"
        }
      },
      "required": ["ref"],
      "additionalProperties": false
    },
    "Instant": {
      "type": "string",
      "format": "date-time"
    },
    "UnitInterval": {
      "type": "number",
      "minimum": 0,
      "maximum": 1
    },
    "Meta": {
      "type": "object",
      "properties": {
        "omirVersion": { "const": "R1" },
        "profile": {
          "type": "array",
          "items": { "type": "string", "format": "uri" }
        },
        "source": { "type": "string" },
        "createdAt": { "$ref": "#/$defs/Instant" },
        "lastUpdated": { "$ref": "#/$defs/Instant" },
        "maturity": { "type": "integer", "minimum": 0, "maximum": 5 }
      },
      "additionalProperties": false
    },
    "Confidence": {
      "type": "object",
      "properties": {
        "alpha": { "type": "number", "exclusiveMinimum": 0 },
        "beta": { "type": "number", "exclusiveMinimum": 0 },
        "calibrated": { "$ref": "#/$defs/UnitInterval" }
      },
      "required": ["alpha", "beta"],
      "additionalProperties": false
    },
    "Decay": {
      "type": "object",
      "properties": {
        "halfLifeHours": { "type": "number", "exclusiveMinimum": 0 },
        "lastAccess": { "$ref": "#/$defs/Instant" },
        "accessCount": { "type": "integer", "minimum": 0 },
        "anchored": { "type": "boolean" }
      },
      "additionalProperties": false
    },
    "Provenance": {
      "type": "object",
      "properties": {
        "source": { "type": "string" },
        "sourceType": { "type": "string" },
        "credibility": { "$ref": "#/$defs/UnitInterval" },
        "externalId": { "type": "string" }
      },
      "additionalProperties": false
    },
    "Extension": {
      "type": "object",
      "properties": {
        "url": { "type": "string", "format": "uri" },
        "valueString": { "type": "string" },
        "valueNumber": { "type": "number" },
        "valueBoolean": { "type": "boolean" },
        "valueJson": {}
      },
      "required": ["url"],
      "additionalProperties": false
    },
    "StringMap": {
      "type": "object",
      "additionalProperties": { "type": "string" }
    }
  }
}
"##;

pub const BUNDLE_SCHEMA: &'static str = r##"{
  "$schema": "https://json-schema.org/draft/2020-12/schema",
  "$id": "https://omir.io/spec/R1/schemas/Bundle.schema.json",
  "title": "OMIR R1 Bundle",
  "description": "A serialized collection of OMIR resources: the .omir document itself.",
  "type": "object",
  "properties": {
    "@context": { "type": ["string", "object"] },
    "resourceType": { "const": "Bundle" },
    "omirVersion": { "const": "R1" },
    "id": { "$ref": "common.schema.json#/$defs/Id" },
    "generatedAt": { "$ref": "common.schema.json#/$defs/Instant" },
    "source": { "type": "string" },
    "entry": {
      "type": "array",
      "minItems": 1,
      "items": {
        "oneOf": [
          { "$ref": "MemoryRecord.schema.json" },
          { "$ref": "Entity.schema.json" },
          { "$ref": "Relationship.schema.json" },
          { "$ref": "Episode.schema.json" }
        ]
      }
    }
  },
  "required": ["resourceType", "omirVersion", "entry"],
  "additionalProperties": false
}
"##;

pub const MEMORY_RECORD_SCHEMA: &'static str = r##"{
  "$schema": "https://json-schema.org/draft/2020-12/schema",
  "$id": "https://omir.io/spec/R1/schemas/MemoryRecord.schema.json",
  "title": "OMIR R1 MemoryRecord",
  "type": "object",
  "properties": {
    "resourceType": { "const": "MemoryRecord" },
    "id": { "$ref": "common.schema.json#/$defs/Id" },
    "meta": { "$ref": "common.schema.json#/$defs/Meta" },
    "content": { "type": "string" },
    "kind": { "enum": ["memory", "plan", "prompt", "learning"] },
    "experienceType": {
      "enum": [
        "conversation", "decision", "error", "learning", "discovery", "pattern", "context",
        "task", "code_edit", "file_access", "search", "command", "observation", "intention"
      ]
    },
    "tier": { "enum": ["working", "session", "longterm", "archive"] },
    "createdAt": { "$ref": "common.schema.json#/$defs/Instant" },
    "eventTime": { "$ref": "common.schema.json#/$defs/Instant" },
    "importance": { "$ref": "common.schema.json#/$defs/UnitInterval" },
    "confidence": { "$ref": "common.schema.json#/$defs/Confidence" },
    "decay": { "$ref": "common.schema.json#/$defs/Decay" },
    "provenance": { "$ref": "common.schema.json#/$defs/Provenance" },
    "entityRefs": {
      "type": "array",
      "items": { "$ref": "common.schema.json#/$defs/Reference" }
    },
    "parentId": { "$ref": "common.schema.json#/$defs/Id" },
    "validUntil": { "$ref": "common.schema.json#/$defs/Instant" },
    "version": { "type": "integer", "minimum": 1 },
    "extension": {
      "type": "array",
      "items": { "$ref": "common.schema.json#/$defs/Extension" }
    }
  },
  "required": ["resourceType", "id", "content", "createdAt"],
  "additionalProperties": false
}
"##;

pub const ENTITY_SCHEMA: &'static str = r##"{
  "$schema": "https://json-schema.org/draft/2020-12/schema",
  "$id": "https://omir.io/spec/R1/schemas/Entity.schema.json",
  "title": "OMIR R1 Entity",
  "type": "object",
  "properties": {
    "resourceType": { "const": "Entity" },
    "id": { "$ref": "common.schema.json#/$defs/Id" },
    "meta": { "$ref": "common.schema.json#/$defs/Meta" },
    "name": { "type": "string" },
    "labels": {
      "type": "array",
      "items": {
        "enum": [
          "person", "organization", "location", "technology", "concept", "event", "date",
          "product", "skill", "keyword", "project", "other"
        ]
      }
    },
    "summary": { "type": "string" },
    "mentionCount": { "type": "integer", "minimum": 0 },
    "salience": { "$ref": "common.schema.json#/$defs/UnitInterval" },
    "properNoun": { "type": "boolean" },
    "attributes": { "$ref": "common.schema.json#/$defs/StringMap" },
    "createdAt": { "$ref": "common.schema.json#/$defs/Instant" },
    "lastSeenAt": { "$ref": "common.schema.json#/$defs/Instant" },
    "extension": {
      "type": "array",
      "items": { "$ref": "common.schema.json#/$defs/Extension" }
    }
  },
  "required": ["resourceType", "id", "name"],
  "additionalProperties": false
}
"##;

pub const RELATIONSHIP_SCHEMA: &'static str = r##"{
  "$schema": "https://json-schema.org/draft/2020-12/schema",
  "$id": "https://omir.io/spec/R1/schemas/Relationship.schema.json",
  "title": "OMIR R1 Relationship",
  "type": "object",
  "properties": {
    "resourceType": { "const": "Relationship" },
    "id": { "$ref": "common.schema.json#/$defs/Id" },
    "meta": { "$ref": "common.schema.json#/$defs/Meta" },
    "from": { "$ref": "common.schema.json#/$defs/Reference" },
    "to": { "$ref": "common.schema.json#/$defs/Reference" },
    "relationType": { "type": "string" },
    "strength": { "$ref": "common.schema.json#/$defs/UnitInterval" },
    "context": { "type": "string" },
    "createdAt": { "$ref": "common.schema.json#/$defs/Instant" },
    "validAt": { "$ref": "common.schema.json#/$defs/Instant" },
    "invalidatedAt": { "$ref": "common.schema.json#/$defs/Instant" },
    "sourceEpisode": { "$ref": "common.schema.json#/$defs/Reference" },
    "extension": {
      "type": "array",
      "items": { "$ref": "common.schema.json#/$defs/Extension" }
    }
  },
  "required": ["resourceType", "id", "from", "to", "relationType"],
  "additionalProperties": false
}
"##;

pub const EPISODE_SCHEMA: &'static str = r##"{
  "$schema": "https://json-schema.org/draft/2020-12/schema",
  "$id": "https://omir.io/spec/R1/schemas/Episode.schema.json",
  "title": "OMIR R1 Episode",
  "type": "object",
  "properties": {
    "resourceType": { "const": "Episode" },
    "id": { "$ref": "common.schema.json#/$defs/Id" },
    "meta": { "$ref": "common.schema.json#/$defs/Meta" },
    "content": { "type": "string" },
    "createdAt": { "$ref": "common.schema.json#/$defs/Instant" },
    "name": { "type": "string" },
    "source": { "enum": ["message", "document", "event", "observation"] },
    "eventTime": { "$ref": "common.schema.json#/$defs/Instant" },
    "entityRefs": {
      "type": "array",
      "items": { "$ref": "common.schema.json#/$defs/Reference" }
    },
    "metadata": { "$ref": "common.schema.json#/$defs/StringMap" },
    "extension": {
      "type": "array",
      "items": { "$ref": "common.schema.json#/$defs/Extension" }
    }
  },
  "required": ["resourceType", "id", "content", "createdAt"],
  "additionalProperties": false
}
"##;

} // verus!
